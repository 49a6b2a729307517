use kvstore::protocol::{DeleteRequest, Error, GetRequest, Request, ResponseCode, SetRequest};
use kvstore::server::router::RequestRouter;
use kvstore::storage::key::Key;
use kvstore::storage::{MaxMemoryStrategy, StorageError};

fn get(key: &str) -> Request {
    Request::Get(GetRequest { key: Key::new(key.as_bytes().to_vec()) })
}

fn set(key: &str, value: &[u8], ttl: Option<u64>) -> Request {
    Request::Put(SetRequest { key: Key::new(key.as_bytes().to_vec()), value: value.to_vec(), ttl })
}

/// A clock reading `x` milliseconds after the epoch, in nanoseconds.
fn ms(x: i128) -> i128 {
    x * 1_000_000
}

fn delete(key: &str) -> Request {
    Request::Delete(DeleteRequest { key: Key::new(key.as_bytes().to_vec()) })
}

#[test]
fn set_get_delete_round() {
    let mut r = RequestRouter::new(1024, MaxMemoryStrategy::LeastRecentUsed);
    let resp = r.handle_at(set("hi", b"wow", Some(20000)), 0).unwrap();
    assert_eq!(resp.code, ResponseCode::Success);
    assert!(resp.value.is_empty());
    let resp = r.handle_at(get("hi"), ms(19999)).unwrap();
    assert_eq!(resp.code, ResponseCode::Success);
    assert_eq!(resp.value, b"wow".to_vec());
    let resp = r.handle_at(delete("hi"), 0).unwrap();
    assert_eq!(resp.code, ResponseCode::Success);
    assert!(matches!(r.handle_at(get("hi"), 0), Err(Error::IO(StorageError::NotFound))));
}

#[test]
fn expired_value_is_not_found() {
    let mut r = RequestRouter::new(1024, MaxMemoryStrategy::TimeToLive);
    r.handle_at(set("k", b"v", Some(10)), ms(100)).unwrap();
    assert_eq!(r.handle_at(get("k"), ms(110) - 1).unwrap().value, b"v".to_vec());
    assert!(matches!(r.handle_at(get("k"), ms(110)), Err(Error::IO(StorageError::NotFound))));
}

#[test]
fn oversized_value_is_refused() {
    let mut r = RequestRouter::new(2, MaxMemoryStrategy::FirstInFirstOut);
    assert!(matches!(
        r.handle_at(set("k", b"abc", None), 0),
        Err(Error::IO(StorageError::OutOfMemory))
    ));
}

#[test]
fn answer_turns_errors_into_failures() {
    let mut r = RequestRouter::new(1024, MaxMemoryStrategy::Simple);
    let resp = r.answer(get("missing"));
    assert_eq!(resp.code, ResponseCode::Fail);
    assert_eq!(resp.value, b"entity not found".to_vec());
    let resp = r.answer(set("a", b"1", None));
    assert_eq!(resp.code, ResponseCode::Success);
    let resp = r.answer(get("a"));
    assert_eq!(resp.code, ResponseCode::Success);
    assert_eq!(resp.value, b"1".to_vec());
    let resp = r.handle(get("a")).unwrap();
    assert_eq!(resp.value, b"1".to_vec());
    let mut small = RequestRouter::new(1, MaxMemoryStrategy::Simple);
    let resp = small.answer(set("a", b"12", None));
    assert_eq!(resp.code, ResponseCode::Fail);
    assert_eq!(resp.value, b"out of memory".to_vec());
}

#[test]
fn can_count_checks_the_byte_total() {
    let r = RequestRouter::new(1024, MaxMemoryStrategy::Simple);
    assert!(r.can_count(&set("a", b"xyz", None)));
    assert!(r.can_count(&get("a")));
}

#[test]
fn sweep_through_router_keeps_live_values() {
    let mut r = RequestRouter::new(1024, MaxMemoryStrategy::Simple);
    r.answer(set("a", b"1", None));
    r.sweep();
    assert_eq!(r.answer(get("a")).value, b"1".to_vec());
}
