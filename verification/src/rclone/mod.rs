pub mod command;
pub mod migration;
pub mod remotes;
pub mod local_upload;
