pub mod civil;
pub mod cli;
pub mod codec;
pub mod data;
pub mod protocols;
pub mod session;
pub mod stores;
pub mod strutil;
pub mod ticket;
pub mod transport;
