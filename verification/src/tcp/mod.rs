//! Connection admission: allow and deny lists, and the limit on open
//! connections.

pub mod ip;
pub mod limit;
