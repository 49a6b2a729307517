use kvstore::storage::key::Key;
use kvstore::storage::size::{byte, gb, kb, mb, pb, tb};
use kvstore::storage::strategy::fifo::FirstInFirstOut;
use kvstore::storage::strategy::lru::LeastRecentUsed;
use kvstore::storage::strategy::simple::Simple;
use kvstore::storage::strategy::ttl::TimeToLive;
use kvstore::storage::strategy::{Page, Strategy};
use kvstore::storage::{MaxMemoryStrategy, Storage, StorageError};

fn k(s: &str) -> Key {
    Key::new(s.as_bytes().to_vec())
}

/// A clock reading `x` milliseconds after the epoch, in nanoseconds.
fn ms(x: i128) -> i128 {
    x * 1_000_000
}

#[test]
fn sizes_scale_by_1024() {
    assert_eq!(byte(7), 7);
    assert_eq!(kb(1), 1024);
    assert_eq!(mb(10), 10 * 1024 * 1024);
    assert_eq!(gb(2), 2 * 1024 * 1024 * 1024);
    assert_eq!(tb(1), 1024usize.pow(4));
    assert_eq!(pb(3), 3 * 1024usize.pow(5));
    assert_eq!(kb(0), 0);
}

#[test]
fn key_equality_and_text() {
    assert!(k("abc").same_as(&k("abc")));
    assert!(!k("abc").same_as(&k("abd")));
    assert!(!k("ab").same_as(&k("abc")));
    assert!(k("abc") == k("abc"));
    assert!(k("abc") != k("ab"));
    assert_eq!(k("hi").to_string(), "hi");
    assert_eq!(Key::new(vec![0x68, 0xff, 0x69]).to_string(), "h\u{FFFD}i");
    assert_eq!(k("xyz").as_bytes(), b"xyz");
    let c = k("copy").clone();
    assert_eq!(c.as_bytes(), b"copy");
    let from: Key = vec![1u8, 2].into();
    assert_eq!(from.as_bytes(), &[1u8, 2]);
}

#[test]
fn page_expiry() {
    let p = Page::new_at(vec![1, 2, 3], Some(100), ms(1000));
    assert_eq!(p.expired_at(), Some(ms(1100)));
    assert!(!p.is_expired_at(ms(1099)));
    assert!(!p.is_expired_at(ms(1100) - 1));
    assert!(p.is_expired_at(ms(1100)));
    assert!(p.has_expiry());
    assert_eq!(p.size(), 3);
    assert_eq!(p.get_value(), vec![1, 2, 3]);
    let forever = Page::new_at(vec![], None, 5);
    assert_eq!(forever.expired_at(), None);
    assert!(!forever.is_expired_at(i128::MAX));
    assert!(!forever.has_expiry());
    let big = Page::new_at(vec![], Some(u64::MAX), ms(1));
    assert_eq!(big.expired_at(), Some(ms(u64::MAX as i128 + 1)));
    let early = Page::new_at(vec![], Some(1), -ms(5));
    assert_eq!(early.expired_at(), Some(-ms(4)));
    assert!(!early.is_expired_at(-ms(4) - 1));
    assert!(early.is_expired_at(-ms(4)));
    let now = Page::new(vec![9], None);
    assert!(!now.is_expired());
    assert_eq!(now.get_value(), vec![9]);
}

#[test]
fn put_then_get_returns_the_value() {
    let mut s = Storage::new(100, MaxMemoryStrategy::Simple);
    assert_eq!(s.put_at(k("a"), b"hello".to_vec(), None, 10), Ok(()));
    assert_eq!(s.get_at(&k("a"), 20), Ok(b"hello".to_vec()));
    assert_eq!(s.allocated(), 5);
    assert_eq!(s.put_at(k("a"), b"hi".to_vec(), None, 30), Ok(()));
    assert_eq!(s.get_at(&k("a"), 40), Ok(b"hi".to_vec()));
    assert_eq!(s.allocated(), 2);
}

#[test]
fn missing_key_is_not_found() {
    let mut s = Storage::new(100, MaxMemoryStrategy::LeastRecentUsed);
    assert_eq!(s.get_at(&k("nope"), 0), Err(StorageError::NotFound));
}

#[test]
fn expired_page_reads_as_missing_and_is_removed() {
    let mut s = Storage::new(100, MaxMemoryStrategy::Simple);
    s.put_at(k("t"), b"abc".to_vec(), Some(50), ms(1000)).unwrap();
    assert_eq!(s.get_at(&k("t"), ms(1049)), Ok(b"abc".to_vec()));
    assert_eq!(s.allocated(), 3);
    assert_eq!(s.get_at(&k("t"), ms(1050)), Err(StorageError::NotFound));
    assert_eq!(s.allocated(), 0);
    assert_eq!(s.get_at(&k("t"), 0), Err(StorageError::NotFound));
}

#[test]
fn expiry_is_kept_to_the_nanosecond() {
    let mut s = Storage::new(100, MaxMemoryStrategy::TimeToLive);
    s.put_at(k("t"), b"abc".to_vec(), Some(50), ms(1000) + 500).unwrap();
    assert_eq!(s.get_at(&k("t"), ms(1050)), Ok(b"abc".to_vec()));
    assert_eq!(s.get_at(&k("t"), ms(1050) + 499), Ok(b"abc".to_vec()));
    assert_eq!(s.get_at(&k("t"), ms(1050) + 500), Err(StorageError::NotFound));
    s.put_at(k("old"), b"x".to_vec(), Some(1), -ms(3)).unwrap();
    assert_eq!(s.get_at(&k("old"), -ms(2) - 1), Ok(b"x".to_vec()));
    assert_eq!(s.get_at(&k("old"), -ms(2)), Err(StorageError::NotFound));
}

#[test]
fn delete_removes_and_always_succeeds() {
    let mut s = Storage::new(100, MaxMemoryStrategy::FirstInFirstOut);
    s.put_at(k("a"), b"1".to_vec(), None, 0).unwrap();
    assert_eq!(s.del(&k("a")), Ok(()));
    assert_eq!(s.get_at(&k("a"), 0), Err(StorageError::NotFound));
    assert_eq!(s.del(&k("a")), Ok(()));
    assert_eq!(s.allocated(), 0);
}

#[test]
fn value_larger_than_budget_is_out_of_memory() {
    let mut s = Storage::new(4, MaxMemoryStrategy::LeastRecentUsed);
    assert_eq!(s.put_at(k("a"), b"12345".to_vec(), None, 0), Err(StorageError::OutOfMemory));
    assert_eq!(s.allocated(), 0);
    assert_eq!(s.put_at(k("a"), b"1234".to_vec(), None, 0), Ok(()));
}

#[test]
fn zero_budget_takes_only_empty_values() {
    let mut s = Storage::new(0, MaxMemoryStrategy::FirstInFirstOut);
    assert_eq!(s.put_at(k("a"), b"x".to_vec(), None, 0), Err(StorageError::OutOfMemory));
    assert_eq!(s.put_at(k("a"), vec![], None, 0), Ok(()));
    assert_eq!(s.get_at(&k("a"), 0), Ok(vec![]));
}

#[test]
fn fifo_evicts_oldest_until_the_value_fits() {
    let mut s = Storage::new(10, MaxMemoryStrategy::FirstInFirstOut);
    s.put_at(k("a"), vec![0; 4], None, 0).unwrap();
    s.put_at(k("b"), vec![0; 4], None, 0).unwrap();
    assert_eq!(s.get_at(&k("a"), 0), Ok(vec![0; 4]));
    s.put_at(k("c"), vec![0; 4], None, 0).unwrap();
    assert_eq!(s.get_at(&k("a"), 0), Err(StorageError::NotFound));
    assert_eq!(s.get_at(&k("b"), 0), Ok(vec![0; 4]));
    assert_eq!(s.get_at(&k("c"), 0), Ok(vec![0; 4]));
    assert_eq!(s.allocated(), 8);
    s.put_at(k("d"), vec![0; 10], None, 0).unwrap();
    assert_eq!(s.get_at(&k("b"), 0), Err(StorageError::NotFound));
    assert_eq!(s.get_at(&k("c"), 0), Err(StorageError::NotFound));
    assert_eq!(s.allocated(), 10);
}

#[test]
fn lru_evicts_least_recently_read() {
    let mut s = Storage::new(10, MaxMemoryStrategy::LeastRecentUsed);
    s.put_at(k("a"), vec![1; 4], None, 0).unwrap();
    s.put_at(k("b"), vec![2; 4], None, 0).unwrap();
    assert_eq!(s.get_at(&k("a"), 0), Ok(vec![1; 4]));
    s.put_at(k("c"), vec![3; 4], None, 0).unwrap();
    assert_eq!(s.get_at(&k("b"), 0), Err(StorageError::NotFound));
    assert_eq!(s.get_at(&k("a"), 0), Ok(vec![1; 4]));
    assert_eq!(s.get_at(&k("c"), 0), Ok(vec![3; 4]));
}

#[test]
fn simple_never_evicts_and_may_exceed_budget() {
    let mut s = Storage::new(10, MaxMemoryStrategy::Simple);
    s.put_at(k("a"), vec![0; 8], None, 0).unwrap();
    s.put_at(k("b"), vec![0; 8], None, 0).unwrap();
    assert_eq!(s.allocated(), 16);
    assert_eq!(s.get_at(&k("a"), 0), Ok(vec![0; 8]));
    assert_eq!(s.put_at(k("c"), vec![0; 2], None, 0), Ok(()));
    assert_eq!(s.allocated(), 18);
}

#[test]
fn ttl_evicts_earliest_expiry_first() {
    let mut s = Storage::new(10, MaxMemoryStrategy::TimeToLive);
    s.put_at(k("late"), vec![0; 4], Some(500), 0).unwrap();
    s.put_at(k("soon"), vec![0; 4], Some(100), 0).unwrap();
    s.put_at(k("new"), vec![0; 4], Some(900), 0).unwrap();
    assert_eq!(s.get_at(&k("soon"), 0), Err(StorageError::NotFound));
    assert_eq!(s.get_at(&k("late"), 0), Ok(vec![0; 4]));
    assert_eq!(s.get_at(&k("new"), 0), Ok(vec![0; 4]));
}

#[test]
fn ttl_keeps_pages_without_expiry() {
    let mut s = Storage::new(10, MaxMemoryStrategy::TimeToLive);
    s.put_at(k("a"), vec![0; 8], None, 0).unwrap();
    s.put_at(k("b"), vec![0; 8], None, 0).unwrap();
    assert_eq!(s.allocated(), 16);
    assert_eq!(s.get_at(&k("a"), 0), Ok(vec![0; 8]));
}

#[test]
fn ttl_skips_stale_schedule_entries() {
    let mut t = TimeToLive::new();
    t.allocate(k("a"), Page::new_at(vec![1], Some(10), 0));
    t.allocate(k("a"), Page::new_at(vec![2], Some(100), 0));
    t.allocate(k("b"), Page::new_at(vec![3], Some(50), 0));
    // "a" was first scheduled at 10, but its page now expires at 100.
    assert_eq!(t.evict(0).map(|k| k.as_bytes().to_vec()), Some(b"b".to_vec()));
    assert_eq!(t.evict(0).map(|k| k.as_bytes().to_vec()), Some(b"a".to_vec()));
    assert!(t.evict(0).is_none());
}

#[test]
fn ttl_evicts_scheduled_page_then_nothing() {
    let mut t = TimeToLive::new();
    t.allocate(k("x"), Page::new_at(vec![1], Some(10), 0));
    assert_eq!(t.evict(ms(5)).map(|k| k.as_bytes().to_vec()), Some(b"x".to_vec()));
    t.deallocate(&k("x"));
    assert!(t.evict(ms(5)).is_none());
}

#[test]
fn fifo_strategy_order() {
    let mut f = FirstInFirstOut::new();
    assert!(f.evict(0).is_none());
    f.allocate(k("a"), Page::new_at(vec![1], None, 0));
    f.allocate(k("b"), Page::new_at(vec![2], None, 0));
    assert_eq!(f.evict(0).unwrap().as_bytes(), b"a");
    f.allocate(k("a"), Page::new_at(vec![3], None, 0));
    assert_eq!(f.evict(0).unwrap().as_bytes(), b"b");
    assert_eq!(f.get(&k("a")).unwrap().get_value(), vec![3]);
    assert_eq!(f.evict(0).unwrap().as_bytes(), b"b");
    assert_eq!(f.deallocate(&k("b")).unwrap().get_value(), vec![2]);
    assert_eq!(f.evict(0).unwrap().as_bytes(), b"a");
    assert_eq!(f.table().len(), 1);
}

#[test]
fn lru_strategy_order() {
    let mut l = LeastRecentUsed::new();
    l.allocate(k("a"), Page::new_at(vec![1], None, 0));
    l.allocate(k("b"), Page::new_at(vec![2], None, 0));
    assert_eq!(l.evict(0).unwrap().as_bytes(), b"a");
    assert!(l.get(&k("a")).is_some());
    assert_eq!(l.evict(0).unwrap().as_bytes(), b"b");
    assert!(l.get(&k("zzz")).is_none());
    assert_eq!(l.evict(0).unwrap().as_bytes(), b"b");
}

#[test]
fn simple_strategy_table() {
    let mut s = Simple::new();
    assert!(s.allocate(k("a"), Page::new_at(vec![1], None, 0)).is_none());
    assert_eq!(s.allocate(k("a"), Page::new_at(vec![2], None, 0)).unwrap().get_value(), vec![1]);
    assert_eq!(s.get(&k("a")).unwrap().get_value(), vec![2]);
    assert!(s.evict(0).is_none());
    assert!(s.deallocate(&k("b")).is_none());
    assert_eq!(s.table().len(), 1);
}

#[test]
fn sweep_round_removes_expired_pages_in_its_window() {
    let mut s = Storage::new(1000, MaxMemoryStrategy::Simple);
    for i in 0..30u8 {
        // even keys expire at 10, odd ones at 1000
        let ttl = if i % 2 == 0 { 10 } else { 1000 };
        s.put_at(Key::new(vec![i]), vec![i], Some(ttl), 0).unwrap();
    }
    s.put_at(k("keep"), vec![1], None, 0).unwrap();
    // window: the pages with a ttl at positions 25..30, that is keys 25..29
    let removed = s.sweep_round(25, ms(20));
    assert_eq!(removed, 2);
    assert_eq!(s.get_at(&Key::new(vec![26]), 0), Err(StorageError::NotFound));
    assert_eq!(s.get_at(&Key::new(vec![28]), 0), Err(StorageError::NotFound));
    assert_eq!(s.get_at(&Key::new(vec![24]), 0), Ok(vec![24]));
    assert_eq!(s.get_at(&Key::new(vec![27]), 0), Ok(vec![27]));
    // offset past the end: nothing
    assert_eq!(s.sweep_round(100, ms(20)), 0);
    // window from 0: 20 pages, 10 of them expired
    assert_eq!(s.sweep_round(0, ms(20)), 10);
    assert_eq!(s.allocated(), 31 - 12);
}

#[test]
fn sweep_removes_only_expired_pages() {
    let mut s = Storage::new(1000, MaxMemoryStrategy::LeastRecentUsed);
    for i in 0..12u8 {
        s.put_at(Key::new(vec![i]), vec![i], Some(10), 0).unwrap();
    }
    s.put_at(k("fresh"), vec![1], Some(1000), 0).unwrap();
    s.put_at(k("forever"), vec![1], None, 0).unwrap();
    s.sweep_expired(ms(50));
    for i in 0..12u8 {
        assert_eq!(s.get_at(&Key::new(vec![i]), 0), Err(StorageError::NotFound));
    }
    assert_eq!(s.get_at(&k("fresh"), ms(50)), Ok(vec![1]));
    assert_eq!(s.get_at(&k("forever"), ms(50)), Ok(vec![1]));
    assert_eq!(s.allocated(), 2);
}

#[test]
fn clock_reading_operations() {
    let mut s = Storage::new(100, MaxMemoryStrategy::TimeToLive);
    assert_eq!(s.put(k("a"), b"v".to_vec(), None), Ok(()));
    assert_eq!(s.get(&k("a")), Ok(b"v".to_vec()));
    assert_eq!(s.put(k("b"), b"w".to_vec(), Some(3_600_000)), Ok(()));
    s.sweep();
    assert_eq!(s.get(&k("b")), Ok(b"w".to_vec()));
    assert_eq!(s.max_size(), 100);
}

#[test]
fn keys_order_like_their_bytes() {
    let pairs: [(&[u8], &[u8]); 6] =
        [(b"a", b"b"), (b"ab", b"a"), (b"abc", b"abc"), (b"", b"x"), (b"", b""), (b"b", b"abc")];
    for (x, y) in pairs {
        let expected = x.to_vec().partial_cmp(&y.to_vec());
        assert_eq!(Key::new(x.to_vec()).partial_cmp(&Key::new(y.to_vec())), expected);
    }
    assert!(Key::new(b"a".to_vec()) < Key::new(b"b".to_vec()));
    assert_eq!(Key::new(b"q".to_vec()).partial_cmp(&Key::new(b"q".to_vec())), Some(std::cmp::Ordering::Equal));
}

#[test]
fn sweep_clears_many_expired_pages() {
    let mut s = Storage::new(1000, MaxMemoryStrategy::FirstInFirstOut);
    for i in 0..40u8 {
        s.put_at(Key::new(vec![i]), vec![i], Some(5), 0).unwrap();
    }
    for i in 100..105u8 {
        s.put_at(Key::new(vec![i]), vec![i], None, 0).unwrap();
    }
    s.sweep_expired(ms(10));
    assert_eq!(s.allocated(), 5);
    for i in 100..105u8 {
        assert_eq!(s.get_at(&Key::new(vec![i]), ms(10)), Ok(vec![i]));
    }
}

#[test]
fn pages_made_now_expire_after_their_ttl() {
    let p = Page::new(vec![1], Some(2));
    let start = std::time::SystemTime::now();
    while start.elapsed().unwrap().as_millis() < 10 {}
    assert!(p.is_expired());
    let q = Page::new(vec![1], Some(3_600_000));
    assert!(!q.is_expired());
}

#[test]
fn accounting_is_exact() {
    let mut s = Storage::new(100, MaxMemoryStrategy::LeastRecentUsed);
    s.put_at(k("a"), vec![0; 7], Some(10), 0).unwrap();
    s.put_at(k("b"), vec![0; 3], None, 0).unwrap();
    assert_eq!(s.allocated(), 10);
    assert_eq!(s.get_at(&k("a"), ms(5)), Ok(vec![0; 7]));
    assert_eq!(s.allocated(), 10);
    assert_eq!(s.get_at(&k("a"), ms(10)), Err(StorageError::NotFound));
    assert_eq!(s.allocated(), 3);
    assert_eq!(s.del(&k("b")), Ok(()));
    assert_eq!(s.allocated(), 0);
    assert_eq!(s.del(&k("b")), Ok(()));
    assert_eq!(s.allocated(), 0);
}

#[test]
fn fifo_put_evicts_just_enough_oldest_pages() {
    let mut s = Storage::new(3, MaxMemoryStrategy::FirstInFirstOut);
    assert_eq!(s.put(k("a"), vec![1], None), Ok(()));
    assert_eq!(s.put(k("b"), vec![2], None), Ok(()));
    assert_eq!(s.put(k("c"), vec![3], None), Ok(()));
    assert_eq!(s.put(k("d"), vec![4, 4], None), Ok(()));
    assert_eq!(s.get(&k("a")), Err(StorageError::NotFound));
    assert_eq!(s.get(&k("b")), Err(StorageError::NotFound));
    assert_eq!(s.get(&k("c")), Ok(vec![3]));
    assert_eq!(s.get(&k("d")), Ok(vec![4, 4]));
}

#[test]
fn lru_put_evicts_the_least_recently_used() {
    let mut s = Storage::new(2, MaxMemoryStrategy::LeastRecentUsed);
    assert_eq!(s.put(k("a"), vec![1], None), Ok(()));
    assert_eq!(s.put(k("b"), vec![2], None), Ok(()));
    assert_eq!(s.get(&k("a")), Ok(vec![1]));
    assert_eq!(s.put(k("c"), vec![3], None), Ok(()));
    assert_eq!(s.get(&k("b")), Err(StorageError::NotFound));
    assert_eq!(s.get(&k("a")), Ok(vec![1]));
    assert_eq!(s.get(&k("c")), Ok(vec![3]));
}

#[test]
fn ttl_evict_finds_nothing_without_expiring_pages() {
    let mut t = TimeToLive::new();
    t.allocate(k("a"), Page::new_at(vec![1], None, 0));
    assert!(t.evict(0).is_none());
    t.allocate(k("b"), Page::new_at(vec![1], Some(30), 0));
    t.allocate(k("c"), Page::new_at(vec![1], Some(20), 0));
    assert_eq!(t.evict(0).unwrap().as_bytes(), b"c");
    t.deallocate(&k("c"));
    assert_eq!(t.evict(0).unwrap().as_bytes(), b"b");
    t.deallocate(&k("b"));
    assert!(t.evict(0).is_none());
}
