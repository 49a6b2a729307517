//! The byte layout of requests and responses.
//!
//! A request is a method byte (1 get, 2 set, 3 delete), a key length byte and
//! the key; a set request goes on with a 4-byte big-endian value length, the
//! value, and a 4-byte big-endian time to live in milliseconds, 0 meaning
//! none. A response is a code byte (0 success, 1 failure), a 4-byte
//! big-endian value length and the value.

use crate::protocol::{
    code_byte, DeleteRequest, Error, GetRequest, Request, RequestView, Response, SetRequest,
};
use crate::storage::key::Key;
use vstd::prelude::*;

verus! {

/// The four big-endian bytes of `n`.
pub open spec fn be32(n: u32) -> Seq<u8> {
    seq![
        (n / 0x100_0000) as u8,
        ((n / 0x1_0000) % 0x100) as u8,
        ((n / 0x100) % 0x100) as u8,
        (n % 0x100) as u8,
    ]
}

/// The number that the four bytes of `b` at `at` spell, big-endian.
pub open spec fn read_be32(b: Seq<u8>, at: int) -> nat {
    (b[at] * 0x100_0000 + b[at + 1] * 0x1_0000 + b[at + 2] * 0x100 + b[at + 3]) as nat
}

/// What the front of a byte stream holds.
pub enum Parsed {
    /// The first byte names no method.
    Invalid,
    /// A request has begun but not all of its bytes are there yet.
    Incomplete,
    /// A whole request, and how many bytes it took.
    Done(RequestView, nat),
}

/// Reads the request at the front of `b`.
pub open spec fn parse_request(b: Seq<u8>) -> Parsed {
    if b.len() < 1 {
        Parsed::Incomplete
    } else if !(b[0] == 1 || b[0] == 2 || b[0] == 3) {
        Parsed::Invalid
    } else if b.len() < 2 {
        Parsed::Incomplete
    } else {
        let key_end = 2 + b[1];
        if b.len() < key_end {
            Parsed::Incomplete
        } else {
            let key = b.subrange(2, key_end);
            if b[0] == 1 {
                Parsed::Done(RequestView::Get { key }, key_end as nat)
            } else if b[0] == 3 {
                Parsed::Done(RequestView::Delete { key }, key_end as nat)
            } else if b.len() < key_end + 4 {
                Parsed::Incomplete
            } else {
                let value_end = key_end + 4 + read_be32(b, key_end);
                if b.len() < value_end + 4 {
                    Parsed::Incomplete
                } else {
                    let t = read_be32(b, value_end);
                    Parsed::Done(
                        RequestView::Put {
                            key,
                            value: b.subrange(key_end + 4, value_end),
                            ttl: if t == 0 {
                                None
                            } else {
                                Some(t as u64)
                            },
                        },
                        (value_end + 4) as nat,
                    )
                }
            }
        }
    }
}

/// A request that the layout can carry: a key of at most 255 bytes, a value
/// of at most `u32::MAX` bytes, and a time to live, if any, from 1 to
/// `u32::MAX` milliseconds.
pub open spec fn encodable(r: RequestView) -> bool {
    match r {
        RequestView::Get { key } => key.len() <= 255,
        RequestView::Delete { key } => key.len() <= 255,
        RequestView::Put { key, value, ttl } => {
            &&& key.len() <= 255
            &&& value.len() <= u32::MAX
            &&& match ttl {
                Some(t) => 1 <= t <= u32::MAX,
                None => true,
            }
        },
    }
}

/// The bytes of an encodable request.
pub open spec fn request_frame(r: RequestView) -> Seq<u8> {
    match r {
        RequestView::Get { key } => seq![1u8, key.len() as u8] + key,
        RequestView::Delete { key } => seq![3u8, key.len() as u8] + key,
        RequestView::Put { key, value, ttl } => seq![2u8, key.len() as u8] + key + be32(
            value.len() as u32,
        ) + value + be32(
            match ttl {
                Some(t) => t as u32,
                None => 0u32,
            },
        ),
    }
}

/// The bytes of a response: the code, the value length (as a `u32`, so taken
/// modulo 2^32) and the value.
pub open spec fn response_frame(code: u8, value: Seq<u8>) -> Seq<u8> {
    seq![code] + be32(value.len() as u32) + value
}

/// What `decode_request` returns, its request taken by its view.
pub open spec fn decoded_view(r: Result<Option<(Request, usize)>, Error>) -> Parsed {
    match r {
        Ok(Some((req, n))) => Parsed::Done(req@, n as nat),
        Ok(None) => Parsed::Incomplete,
        Err(_) => Parsed::Invalid,
    }
}

proof fn lemma_read_be32(n: u32)
    ensures
        read_be32(be32(n), 0) == n,
{
    let b = be32(n);
    assert(b[0] == (n / 0x100_0000) as u8);
    assert(b[1] == ((n / 0x1_0000) % 0x100) as u8);
    assert(b[2] == ((n / 0x100) % 0x100) as u8);
    assert(b[3] == (n % 0x100) as u8);
    assert((n / 0x100_0000) as u8 as int * 0x100_0000 + ((n / 0x1_0000) % 0x100) as u8 as int
        * 0x1_0000 + ((n / 0x100) % 0x100) as u8 as int * 0x100 + (n % 0x100) as u8 as int
        == n as int) by (bit_vector);
}

fn read_u32_at(b: &[u8], at: usize) -> (n: u32)
    requires
        at + 4 <= b@.len(),
    ensures
        n == read_be32(b@, at as int),
{
    let n = (b[at] as u32) * 0x100_0000 + (b[at + 1] as u32) * 0x1_0000 + (b[at + 2] as u32)
        * 0x100 + (b[at + 3] as u32);
    n
}

fn copy_range(b: &[u8], lo: usize, hi: usize) -> (v: Vec<u8>)
    requires
        lo <= hi <= b@.len(),
    ensures
        v@ == b@.subrange(lo as int, hi as int),
{
    let mut v: Vec<u8> = Vec::new();
    let mut i = lo;
    while i < hi
        invariant
            lo <= i <= hi <= b@.len(),
            v@ == b@.subrange(lo as int, i as int),
        decreases hi - i,
    {
        v.push(b[i]);
        i = i + 1;
        assert(v@ =~= b@.subrange(lo as int, i as int));
    }
    v
}

/// Reads the request at the front of `bytes`: `Ok(Some((request, n)))` when
/// the first `n` bytes hold a whole request, `Ok(None)` when more bytes are
/// needed, and `Err(Error::InvalidMethod)` when the first byte names no
/// method.
pub fn decode_request(bytes: &[u8]) -> (r: Result<Option<(Request, usize)>, Error>)
    ensures
        decoded_view(r) == parse_request(bytes@),
        r is Err ==> r == Err::<Option<(Request, usize)>, Error>(Error::InvalidMethod),
{
    let len = bytes.len();
    if len < 1 {
        return Ok(None);
    }
    let method = bytes[0];
    if !(method == 1 || method == 2 || method == 3) {
        return Err(Error::InvalidMethod);
    }
    if len < 2 {
        return Ok(None);
    }
    let key_end: usize = 2 + bytes[1] as usize;
    if len < key_end {
        return Ok(None);
    }
    let key = Key::new(copy_range(bytes, 2, key_end));
    if method == 1 {
        return Ok(Some((Request::Get(GetRequest { key }), key_end)));
    }
    if method == 3 {
        return Ok(Some((Request::Delete(DeleteRequest { key }), key_end)));
    }
    if len - key_end < 4 {
        return Ok(None);
    }
    let value_len = read_u32_at(bytes, key_end) as usize;
    if len - key_end - 4 < value_len || len - key_end - 4 - value_len < 4 {
        return Ok(None);
    }
    let value_end = key_end + 4 + value_len;
    let value = copy_range(bytes, key_end + 4, value_end);
    let t = read_u32_at(bytes, value_end);
    let ttl = if t == 0 {
        None
    } else {
        Some(t as u64)
    };
    Ok(Some((Request::Put(SetRequest { key, value, ttl }), value_end + 4)))
}

/// The bytes of a response.
pub fn encode_response(response: &Response) -> (bytes: Vec<u8>)
    ensures
        bytes@ == response_frame(code_byte(response.code), response.value@),
{
    let mut bytes: Vec<u8> = Vec::new();
    bytes.push(response.code.as_byte());
    let n = response.value.len() as u32;
    bytes.push((n / 0x100_0000) as u8);
    bytes.push(((n / 0x1_0000) % 0x100) as u8);
    bytes.push(((n / 0x100) % 0x100) as u8);
    bytes.push((n % 0x100) as u8);
    let ghost head = bytes@;
    bytes.extend_from_slice(response.value.as_slice());
    assert(bytes@ =~= response_frame(code_byte(response.code), response.value@));
    bytes
}

/// A response's bytes read back as the response: the first byte is the
/// code, the next four spell the value's length big-endian, and the value
/// follows, nothing after it; for any value of at most `u32::MAX` bytes.
pub proof fn law_response_round_trip(code: u8, value: Seq<u8>)
    requires
        value.len() <= u32::MAX,
    ensures
        response_frame(code, value).len() == 5 + value.len(),
        response_frame(code, value)[0] == code,
        response_frame(code, value)[1] * 0x100_0000 + response_frame(code, value)[2] * 0x1_0000
            + response_frame(code, value)[3] * 0x100 + response_frame(code, value)[4]
            == value.len(),
        response_frame(code, value).subrange(5, 5 + value.len() as int) == value,
{
    let f = response_frame(code, value);
    lemma_read_be32(value.len() as u32);
    assert(f.subrange(1, 5) =~= be32(value.len() as u32));
    assert(f[1] == be32(value.len() as u32)[0]);
    assert(f[2] == be32(value.len() as u32)[1]);
    assert(f[3] == be32(value.len() as u32)[2]);
    assert(f[4] == be32(value.len() as u32)[3]);
    assert(f.subrange(5, 5 + value.len() as int) =~= value);
}

/// Every encodable request, followed by any bytes, reads back as itself and
/// takes exactly its own bytes.
pub proof fn law_request_round_trip(r: RequestView, rest: Seq<u8>)
    requires
        encodable(r),
    ensures
        parse_request(request_frame(r) + rest) == Parsed::Done(r, request_frame(r).len()),
{
    let f = request_frame(r);
    let b = f + rest;
    match r {
        RequestView::Get { key } => {
            assert(b[0] == 1u8);
            assert(b[1] == key.len() as u8);
            assert(b.subrange(2, 2 + key.len() as int) =~= key);
        },
        RequestView::Delete { key } => {
            assert(b[0] == 3u8);
            assert(b[1] == key.len() as u8);
            assert(b.subrange(2, 2 + key.len() as int) =~= key);
        },
        RequestView::Put { key, value, ttl } => {
            let ke: int = 2 + key.len() as int;
            let lb = be32(value.len() as u32);
            let t = match ttl {
                Some(t) => t as u32,
                None => 0u32,
            };
            let tb = be32(t);
            lemma_read_be32(value.len() as u32);
            lemma_read_be32(t);
            assert(b[0] == 2u8);
            assert(b[1] == key.len() as u8);
            assert(b.subrange(2, ke) =~= key);
            assert(b.subrange(ke, ke + 4) =~= lb);
            assert(read_be32(b, ke) == read_be32(lb, 0));
            let ve: int = ke + 4 + value.len();
            assert(b.subrange(ke + 4, ve) =~= value);
            assert(b.subrange(ve, ve + 4) =~= tb);
            assert(read_be32(b, ve) == read_be32(tb, 0));
        },
    }
}

/// No strict prefix of an encodable request's bytes reads as a request or
/// as invalid: the reader waits for more.
pub proof fn law_request_prefix_incomplete(r: RequestView, n: int)
    requires
        encodable(r),
        0 <= n < request_frame(r).len(),
    ensures
        parse_request(request_frame(r).take(n)) == Parsed::Incomplete,
{
    let f = request_frame(r);
    let b = f.take(n);
    law_request_round_trip(r, Seq::empty());
    assert(f + Seq::<u8>::empty() =~= f);
    match r {
        RequestView::Put { key, value, ttl } => {
            let ke: int = 2 + key.len() as int;
            if n >= ke + 4 {
                assert(read_be32(b, ke) == read_be32(f, ke));
            }
            let ve: int = ke + 4 + value.len();
            if n >= ve + 4 {
                assert(false);
            }
        },
        _ => {},
    }
}

} // verus!
