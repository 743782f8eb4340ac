pub mod rclone;
pub mod text;
pub mod order;
pub mod paths;
pub mod database;
pub mod google;
pub mod keeper;
pub mod instance;
pub mod local_files;
pub mod update;
pub mod web;
