//! The server's request handling.

pub mod router;
