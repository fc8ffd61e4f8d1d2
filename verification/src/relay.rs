//! The rendezvous relay and the client's side of it.

pub mod client;
pub mod fs;
pub mod server;
pub mod text;
