//! A small in-memory key-value cache: a binary request protocol, a storage
//! engine with replaceable page-replacement strategies, and the request router
//! that ties them together.

pub mod protocol;
pub mod server;
pub mod storage;
pub mod tcp;
