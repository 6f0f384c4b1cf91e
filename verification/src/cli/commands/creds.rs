pub mod add;
pub mod list;
pub mod load_file;
pub mod remove;
pub mod save_file;
pub mod use_cmd;
