pub mod keeper;
pub mod local_file_history;
pub mod local_migration;
pub mod tag_filter;
pub mod drive_history;
pub mod google_groups;
pub mod tag_operations;
