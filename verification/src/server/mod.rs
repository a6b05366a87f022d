//! The server side of a connection.

pub mod entry;
pub mod h2;
pub mod io;
pub mod laws;
pub mod pipe;
pub mod request;
pub mod steps;
