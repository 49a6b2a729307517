//! The wire protocol: requests and responses, and their byte layout.

use crate::storage::key::Key;
use vstd::prelude::*;

pub mod buffer;
pub mod codec;
pub mod error;

pub use error::Error;

verus! {

/// Read the page stored under `key`.
#[derive(Debug)]
pub struct GetRequest {
    pub key: Key,
}

/// Store `value` under `key`, expiring after `ttl` milliseconds if given.
#[derive(Debug)]
pub struct SetRequest {
    pub key: Key,
    pub value: Vec<u8>,
    pub ttl: Option<u64>,
}

/// Remove the page stored under `key`.
#[derive(Debug)]
pub struct DeleteRequest {
    pub key: Key,
}

/// A client's request.
#[derive(Debug)]
pub enum Request {
    Get(GetRequest),
    Put(SetRequest),
    Delete(DeleteRequest),
}

/// A request as plain values.
pub enum RequestView {
    Get { key: Seq<u8> },
    Put { key: Seq<u8>, value: Seq<u8>, ttl: Option<u64> },
    Delete { key: Seq<u8> },
}

impl View for Request {
    type V = RequestView;

    open spec fn view(&self) -> RequestView {
        match self {
            Request::Get(g) => RequestView::Get { key: g.key@ },
            Request::Put(s) => RequestView::Put { key: s.key@, value: s.value@, ttl: s.ttl },
            Request::Delete(d) => RequestView::Delete { key: d.key@ },
        }
    }
}

/// Whether a request succeeded.
#[derive(Clone, Copy, Debug, PartialEq, Eq, Structural)]
pub enum ResponseCode {
    Success,
    Fail,
}

/// The byte that stands for a response code on the wire.
pub open spec fn code_byte(c: ResponseCode) -> u8 {
    match c {
        ResponseCode::Success => 0,
        ResponseCode::Fail => 1,
    }
}

impl ResponseCode {
    /// The byte that stands for this code on the wire.
    pub fn as_byte(&self) -> (b: u8)
        ensures
            b == code_byte(*self),
    {
        match self {
            ResponseCode::Success => 0,
            ResponseCode::Fail => 1,
        }
    }
}

/// The answer to a request.
#[derive(Debug)]
pub struct Response {
    pub code: ResponseCode,
    pub value: Vec<u8>,
}

impl Response {
    /// A successful response carrying `value`.
    pub fn success(value: Vec<u8>) -> (r: Response)
        ensures
            r.code == ResponseCode::Success,
            r.value@ == value@,
    {
        Response { code: ResponseCode::Success, value }
    }
}

} // verus!
