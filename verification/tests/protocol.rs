use kvstore::protocol::buffer::{InputBuffer, OutputBuffer};
use kvstore::protocol::codec::{decode_request, encode_response};
use kvstore::protocol::{Error, Request, Response, ResponseCode};
use kvstore::storage::StorageError;

fn decoded(bytes: &[u8]) -> Result<Option<(Request, usize)>, Error> {
    decode_request(bytes)
}

#[test]
fn decodes_a_get_request() {
    match decoded(b"\x01\x02hi") {
        Ok(Some((Request::Get(g), n))) => {
            assert_eq!(g.key.as_bytes(), b"hi");
            assert_eq!(n, 4);
        }
        other => panic!("unexpected {:?}", other),
    }
}

#[test]
fn decodes_a_set_request() {
    match decoded(b"\x02\x02hi\x00\x00\x00\x03wow\x00\x00\x4e\x20") {
        Ok(Some((Request::Put(s), n))) => {
            assert_eq!(s.key.as_bytes(), b"hi");
            assert_eq!(s.value, b"wow".to_vec());
            assert_eq!(s.ttl, Some(20000));
            assert_eq!(n, 15);
        }
        other => panic!("unexpected {:?}", other),
    }
}

#[test]
fn decodes_a_set_request_without_ttl() {
    match decoded(b"\x02\x01k\x00\x00\x00\x00\x00\x00\x00\x00rest") {
        Ok(Some((Request::Put(s), n))) => {
            assert_eq!(s.key.as_bytes(), b"k");
            assert!(s.value.is_empty());
            assert_eq!(s.ttl, None);
            assert_eq!(n, 11);
        }
        other => panic!("unexpected {:?}", other),
    }
}

#[test]
fn decodes_a_delete_request() {
    match decoded(b"\x03\x02hi\x01") {
        Ok(Some((Request::Delete(d), n))) => {
            assert_eq!(d.key.as_bytes(), b"hi");
            assert_eq!(n, 4);
        }
        other => panic!("unexpected {:?}", other),
    }
}

#[test]
fn incomplete_requests_wait_for_more() {
    let full = b"\x02\x02hi\x00\x00\x00\x03wow\x00\x00\x4e\x20";
    for n in 0..full.len() {
        assert!(matches!(decoded(&full[..n]), Ok(None)), "prefix {}", n);
    }
    assert!(matches!(decoded(b"\x01\x05abc"), Ok(None)));
}

#[test]
fn unknown_methods_are_invalid() {
    assert!(matches!(decoded(b"\x00\x02hi"), Err(Error::InvalidMethod)));
    assert!(matches!(decoded(b"\x04"), Err(Error::InvalidMethod)));
    assert!(matches!(decoded(b"\xff\x00"), Err(Error::InvalidMethod)));
}

#[test]
fn encodes_responses() {
    let ok = Response::success(b"wow".to_vec());
    assert_eq!(encode_response(&ok), b"\x00\x00\x00\x00\x03wow".to_vec());
    let fail = Response { code: ResponseCode::Fail, value: vec![] };
    assert_eq!(encode_response(&fail), vec![1, 0, 0, 0, 0]);
    let long = Response::success(vec![7; 300]);
    let bytes = encode_response(&long);
    assert_eq!(&bytes[..5], &[0, 0, 0, 1, 44]);
    assert_eq!(bytes.len(), 305);
}

#[test]
fn response_codes_on_the_wire() {
    assert_eq!(ResponseCode::Success.as_byte(), 0);
    assert_eq!(ResponseCode::Fail.as_byte(), 1);
}

#[test]
fn error_messages() {
    assert_eq!(Error::InvalidMethod.to_string(), "invalid method");
    assert_eq!(Error::Disconnected.to_string(), "disconnected");
    assert_eq!(Error::IO(StorageError::NotFound).to_string(), "entity not found");
    assert_eq!(Error::IO(StorageError::OutOfMemory).to_string(), "out of memory");
    assert_eq!(
        Error::IO(StorageError::NotFound).to_string(),
        std::io::Error::from(std::io::ErrorKind::NotFound).to_string()
    );
    assert_eq!(
        Error::IO(StorageError::OutOfMemory).to_string(),
        std::io::Error::from(std::io::ErrorKind::OutOfMemory).to_string()
    );
}

#[test]
fn input_buffer_reads_in_order() {
    let mut b = InputBuffer::new();
    b.extend(b"abc");
    assert!(b.read_n(4).is_none());
    assert_eq!(b.len(), 3);
    b.extend(b"de");
    assert_eq!(b.read_n(2), Some(b"ab".to_vec()));
    assert_eq!(b.as_slice(), b"cde");
    b.consume(1);
    assert_eq!(b.as_slice(), b"de");
    assert_eq!(b.read_n(2), Some(b"de".to_vec()));
    assert_eq!(b.len(), 0);
}

#[test]
fn output_buffer_asks_for_a_flush_at_512_bytes() {
    let mut b = OutputBuffer::new();
    assert!(!b.write(&[0; 511]));
    assert!(b.write(&[1]));
    let all = b.take_all();
    assert_eq!(all.len(), 512);
    assert_eq!(all[511], 1);
    assert!(!b.write(b"x"));
    assert_eq!(b.take_all(), b"x".to_vec());
}

#[test]
fn empty_keys_and_values_are_allowed() {
    match decoded(b"\x01\x00") {
        Ok(Some((Request::Get(g), n))) => {
            assert!(g.key.as_bytes().is_empty());
            assert_eq!(n, 2);
        }
        other => panic!("unexpected {:?}", other),
    }
    assert!(matches!(decoded(b"\x02\x00\x00\x00\x00\x00\x00\x00\x00"), Ok(None)));
    assert!(matches!(
        decoded(b"\x02\x00\x00\x00\x00\x00\x00\x00\x00\x01"),
        Ok(Some((Request::Put(_), 10)))
    ));
}

#[test]
fn writes_in_turn_arrive_in_order() {
    let mut b = OutputBuffer::new();
    let mut sent: Vec<u8> = Vec::new();
    let chunks: [Vec<u8>; 3] = [vec![1; 300], vec![2; 300], vec![3; 5]];
    let mut signals = Vec::new();
    for c in chunks.iter() {
        let flush = b.write(c);
        signals.push(flush);
        if flush {
            sent.extend(b.take_all());
        }
    }
    assert_eq!(signals, vec![false, true, false]);
    assert_eq!(sent.len(), 600);
    sent.extend(b.take_all());
    assert_eq!(sent, chunks.concat());
}
