pub mod credentials_store;
pub mod domain_controller_store;
pub mod index;
