pub mod add;
pub mod list;
pub mod use_cmd;
