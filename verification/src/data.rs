pub mod credential;
pub mod domain_controller;
