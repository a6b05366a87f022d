//! The decisions of a web server's transport layer, with their contracts.
//!
//! * [`multipart`] walks the parts of a `multipart/form-data` request body, and
//!   [`message`] states what a walk finds in a whole one, however it arrives
//!   ([`arrival`]); [`wire`] says so byte by byte.
//! * [`server`] runs an HTTP/2 connection: which of its streams, timers and
//!   request tasks is asked next, and what each answer means.
//!
//! Nothing in this crate reads from a socket or sleeps. A caller performs the
//! step that it is handed and reports what came of it.

pub mod arrival;
pub mod buf;
pub mod error;
pub mod headers;
pub mod message;
pub mod multipart;
pub mod safety;
pub mod server;
pub mod task;
pub mod wire;
