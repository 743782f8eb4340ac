pub mod google_groups;
pub mod markdown;
pub mod notes;
pub mod google_connection;
