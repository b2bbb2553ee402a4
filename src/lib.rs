pub mod console;
pub mod edits;
pub mod home;
pub mod models;
pub mod pending_log;
pub mod table_data;
