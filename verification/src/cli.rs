pub mod command_manager;
pub mod commands;
pub mod hydraad_prompt;
