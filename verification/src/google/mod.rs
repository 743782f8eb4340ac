pub mod auth;
pub mod groups;
pub mod my_groups;
pub mod client;
pub mod bridge;
