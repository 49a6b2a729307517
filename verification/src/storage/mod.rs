//! The storage engine: a page table under a memory budget, with a strategy
//! that picks which pages leave when the budget runs out.

use vstd::prelude::*;

pub mod clock;
pub mod key;
pub mod laws;
pub mod model;
pub mod random;
pub mod size;
pub mod strategy;

verus! {

/// Which page-replacement strategy a storage runs.
#[derive(Clone, Copy, Debug, PartialEq, Eq, Structural)]
pub enum MaxMemoryStrategy {
    Simple,
    LeastRecentUsed,
    FirstInFirstOut,
    TimeToLive,
}

} // verus!

use crate::storage::key::Key;
use crate::storage::model::{
    as_map, distinct_keys, expired, expired_row, has_key, lemma_lookup_at, keys_of, lemma_filter_push, lemma_window_push,
    lemma_with_ttl_push, lemma_take_one_more, lemma_total_size_map, lookup, sweep_victims, total_size, window, with_ttl, PageView, Row,
};
use crate::storage::clock::now_nanos;
use crate::storage::random::{gen_below, thread_rng};
use crate::storage::strategy::any::AnyStrategy;
use crate::storage::strategy::queue::{lemma_without_at, queue_matches, to_back, without};
use crate::storage::strategy::ttl::{lemma_ttl_evict_shrinks, ttl_evict, Item};
use crate::storage::strategy::{Page, Strategy};
use crate::storage::model::{expiry, expiry_fits};

verus! {

/// Why the storage refused a request.
#[derive(Clone, Copy, Debug, PartialEq, Eq, Structural)]
pub enum StorageError {
    /// No live page is stored under the key.
    NotFound,
    /// The value is larger than the whole memory budget.
    OutOfMemory,
}

/// What a read of `key` at clock reading `now` gives back.
pub open spec fn get_outcome(rows: Seq<Row>, key: Seq<u8>, now: i128) -> Result<
    Seq<u8>,
    StorageError,
> {
    match lookup(rows, key) {
        Some(p) => if expired(p, now) {
            Err(StorageError::NotFound)
        } else {
            Ok(p.value)
        },
        None => Err(StorageError::NotFound),
    }
}

/// What is stored after a read of `key` at `now`: an expired page is gone.
pub open spec fn after_read(rows: Seq<Row>, key: Seq<u8>, now: i128) -> Map<Seq<u8>, PageView> {
    match lookup(rows, key) {
        Some(p) => if expired(p, now) {
            as_map(rows).remove(key)
        } else {
            as_map(rows)
        },
        None => as_map(rows),
    }
}

/// Every key of `before` missing from `after` held a page expired at `now`.
pub open spec fn only_expired_removed(
    before: Map<Seq<u8>, PageView>,
    after: Map<Seq<u8>, PageView>,
    now: i128,
) -> bool {
    forall|k: Seq<u8>|
        #[trigger] before.contains_key(k) && !after.contains_key(k) ==> expired(before[k], now)
}

/// No page of `m` has expired at `now`.
pub open spec fn none_expired(m: Map<Seq<u8>, PageView>, now: i128) -> bool {
    forall|k: Seq<u8>| #[trigger] m.contains_key(k) ==> !expired(m[k], now)
}

/// The last round of a sweep at `now`: it started from rows `r`, which hold
/// what `before` held less pages expired at `now`; it looked at position
/// `offset` (0 when `r` has at most 20 rows, otherwise below `r.len() - 20`),
/// found fewer than five expired pages there, and removed them, leaving
/// `after`.
pub open spec fn last_sweep_round(
    before: Map<Seq<u8>, PageView>,
    r: Seq<Row>,
    offset: int,
    now: i128,
    after: Map<Seq<u8>, PageView>,
) -> bool {
    &&& distinct_keys(r)
    &&& as_map(r).submap_of(before)
    &&& only_expired_removed(before, as_map(r), now)
    &&& if r.len() <= 20 {
        offset == 0
    } else {
        0 <= offset < r.len() - 20
    }
    &&& sweep_victims(r, offset, now).len() < 5
    &&& after == as_map(r).remove_keys(keys_of(sweep_victims(r, offset, now)).to_set())
}

/// A sweep at `now` took the storage from `before` to `after`: only expired
/// pages left, the last round is as `last_sweep_round` states, and when at
/// most 16 pages remain none of them has expired.
pub open spec fn swept(before: Storage, after: Storage, now: i128) -> bool {
    &&& only_expired_removed(before.contents(), after.contents(), now)
    &&& (after.rows().len() <= 16 ==> none_expired(after.contents(), now))
    &&& exists|r: Seq<Row>, offset: int|
        #[trigger] last_sweep_round(before.contents(), r, offset, now, after.contents())
}

/// The page a store of `value` with `ttl` at clock reading `now` makes.
pub open spec fn made_page(value: Seq<u8>, ttl: Option<u64>, now: i128) -> PageView {
    PageView { value, ttl, created_at: now }
}

/// The eviction order after a read of `key` at `now`, given what the read
/// found: a least-recently-used storage moves a found key to the back; an
/// expired page then leaves the order.
pub open spec fn order_after_read(
    engine: AnyStrategy,
    found: Option<PageView>,
    key: Seq<u8>,
    now: i128,
) -> Seq<Seq<u8>> {
    let touched = if engine.kind() == MaxMemoryStrategy::LeastRecentUsed && found is Some {
        to_back(engine.order(), key)
    } else {
        engine.order()
    };
    match found {
        Some(p) => if expired(p, now) && engine.is_ordered() {
            without(touched, key)
        } else {
            touched
        },
        None => touched,
    }
}

/// A read's result, its bytes taken by their view.
pub open spec fn bytes_result(r: Result<Vec<u8>, StorageError>) -> Result<Seq<u8>, StorageError> {
    match r {
        Ok(v) => Ok(v@),
        Err(e) => Err(e),
    }
}

/// There is room for `size` more bytes when `used` bytes of `max` are taken.
pub open spec fn has_room(used: int, max: int, size: int) -> bool {
    used <= max && max - used >= size
}

/// Bytes freed by removing the first `m` keys of `order` from `contents`.
pub open spec fn freed(contents: Map<Seq<u8>, PageView>, order: Seq<Seq<u8>>, m: nat) -> int
    decreases m,
{
    if m == 0 || m > order.len() {
        0
    } else {
        freed(contents, order, (m - 1) as nat) + contents[order[m - 1]].value.len()
    }
}

/// Removing the first `n` keys of `order`, and no fewer, makes room for
/// `size` bytes; or all keys are removed and there is still no room.
pub open spec fn eviction_count(
    contents: Map<Seq<u8>, PageView>,
    order: Seq<Seq<u8>>,
    used: int,
    max: int,
    size: int,
    n: nat,
) -> bool {
    &&& n <= order.len()
    &&& forall|m: nat| m < n ==> !has_room(used - #[trigger] freed(contents, order, m), max, size)
    &&& (n == order.len() || has_room(used - freed(contents, order, n), max, size))
}

/// What a time-to-live storage does to make room for `size` bytes: while
/// there is no room, it evicts the victim `ttl_evict` names, until there is
/// room or no victim. Returns what stays stored, the schedule that is left,
/// and the bytes then used.
pub open spec fn ttl_make_room(
    items: Seq<Item>,
    contents: Map<Seq<u8>, PageView>,
    used: int,
    max: int,
    size: int,
    now: i128,
) -> (Map<Seq<u8>, PageView>, Seq<Item>, int)
    decreases items.len(),
{
    if has_room(used, max, size) {
        (contents, items, used)
    } else {
        let found = ttl_evict(items, contents, now);
        match found.0 {
            None => (contents, found.1, used),
            Some(k) => {
                proof {
                    lemma_ttl_evict_shrinks(items, contents, now);
                }
                ttl_make_room(
                    found.1,
                    contents.remove(k),
                    used - contents[k].value.len(),
                    max,
                    size,
                    now,
                )
            },
        }
    }
}

/// Bytes a read of `key` at `now` frees: the size of an expired page.
pub open spec fn read_freed(rows: Seq<Row>, key: Seq<u8>, now: i128) -> int {
    match lookup(rows, key) {
        Some(p) => if expired(p, now) {
            p.value.len() as int
        } else {
            0
        },
        None => 0,
    }
}

/// What a read of `key` at clock reading `now` does to the storage: an
/// expired page leaves and frees its bytes; a least-recently-used storage
/// makes a found key the most recently used; the expiry schedule stays as
/// it is.
pub open spec fn read_effect(before: Storage, after: Storage, key: Seq<u8>, now: i128) -> bool {
    &&& after.wf()
    &&& after.capacity() == before.capacity()
    &&& after.engine().kind() == before.engine().kind()
    &&& after.engine().items() == before.engine().items()
    &&& after.contents() == after_read(before.rows(), key, now)
    &&& after.used() == before.used() - read_freed(before.rows(), key, now)
    &&& after.engine().order() == order_after_read(
        before.engine(),
        lookup(before.rows(), key),
        key,
        now,
    )
}

/// What a delete of `key` does to the storage: the key's page leaves and
/// frees its bytes, the key leaves the eviction order,
/// and the expiry schedule stays as it is.
pub open spec fn delete_effect(before: Storage, after: Storage, key: Seq<u8>) -> bool {
    &&& after.wf()
    &&& after.capacity() == before.capacity()
    &&& after.engine().kind() == before.engine().kind()
    &&& after.engine().items() == before.engine().items()
    &&& after.contents() == before.contents().remove(key)
    &&& after.used() == before.used() - if before.contents().contains_key(key) {
        before.contents()[key].value.len() as int
    } else {
        0
    }
    &&& before.engine().is_ordered() ==> after.engine().order() == without(
        before.engine().order(),
        key,
    )
}

/// What a successful store of `value` under `key` with `ttl` at clock
/// reading `now` does to the storage: the new page is stored, no other key
/// gains or changes a page, and the pages that leave are those the strategy
/// picks until the value fits.
pub open spec fn put_effect(
    before: Storage,
    after: Storage,
    key: Seq<u8>,
    value: Seq<u8>,
    ttl: Option<u64>,
    now: i128,
) -> bool {
    let page = made_page(value, ttl, now);
    &&& after.wf()
    &&& after.capacity() == before.capacity()
    &&& after.engine().kind() == before.engine().kind()
    &&& after.contents().contains_key(key)
    &&& after.contents()[key] == page
    &&& after.contents().remove(key).submap_of(before.contents())
    &&& (before.engine().kind() == MaxMemoryStrategy::Simple || before.capacity() == 0)
        ==> after.contents() == before.contents().insert(key, page)
    &&& before.engine().is_ordered() && before.used() <= before.capacity() ==> after.used()
        <= after.capacity()
    &&& before.engine().is_ordered() && before.capacity() > 0 ==> exists|n: nat|
        #![trigger before.engine().order().skip(n as int)]
        {
            &&& eviction_count(
                before.contents(),
                before.engine().order(),
                before.used() as int,
                before.capacity() as int,
                value.len() as int,
                n,
            )
            &&& after.contents() == before.contents().remove_keys(
                before.engine().order().take(n as int).to_set(),
            ).insert(key, page)
            &&& after.engine().order() == to_back(before.engine().order().skip(n as int), key)
        }
    &&& before.engine().kind() == MaxMemoryStrategy::TimeToLive && before.capacity() > 0 ==> {
        let room = ttl_make_room(
            before.engine().items(),
            before.contents(),
            before.used() as int,
            before.capacity() as int,
            value.len() as int,
            now,
        );
        &&& after.contents() == room.0.insert(key, page)
        &&& after.engine().items() == match expiry(page) {
            Some(e) => room.1.push((e, key)),
            None => room.1,
        }
    }
}

/// Pages under a memory budget, managed by a replacement strategy.
pub struct Storage {
    strategy: AnyStrategy,
    max_size: usize,
    allocated: usize,
}

impl Storage {
    /// The strategy and its table.
    pub closed spec fn engine(&self) -> AnyStrategy {
        self.strategy
    }

    /// The rows of the table.
    pub open spec fn rows(&self) -> Seq<Row> {
        self.engine().rows()
    }

    /// What is stored: key bytes to page.
    pub open spec fn contents(&self) -> Map<Seq<u8>, PageView> {
        as_map(self.rows())
    }

    /// The memory budget in bytes.
    pub closed spec fn capacity(&self) -> nat {
        self.max_size as nat
    }

    /// The bytes the stored values take.
    pub closed spec fn used(&self) -> nat {
        self.allocated as nat
    }

    /// The strategy agrees with its table, and the count of used bytes is the
    /// total size of the stored values.
    pub closed spec fn wf(&self) -> bool {
        &&& self.strategy.wf()
        &&& self.allocated == total_size(self.strategy.rows())
        &&& forall|k: Seq<u8>| !#[trigger] self.strategy.unscheduled().contains(k)
    }

    /// The count of used bytes is the total size of the stored values, and
    /// no key is stored twice.
    pub proof fn lemma_accounting(&self)
        requires
            self.wf(),
        ensures
            self.used() == total_size(self.rows()),
            distinct_keys(self.rows()),
            forall|k: Seq<u8>| !#[trigger] self.engine().unscheduled().contains(k),
    {
        self.strategy.lemma_distinct();
    }

    /// The bytes in use follow from what is stored: two well-formed storages
    /// with the same contents use the same number of bytes.
    pub proof fn lemma_used_by_contents(&self, other: &Storage)
        requires
            self.wf(),
            other.wf(),
            self.contents() == other.contents(),
        ensures
            self.used() == other.used(),
    {
        self.lemma_accounting();
        other.lemma_accounting();
        lemma_total_size_map(self.rows(), other.rows());
    }

    /// An empty storage with a budget of `size` bytes, run by strategy `kind`.
    pub fn new(size: usize, kind: MaxMemoryStrategy) -> (s: Storage)
        ensures
            s.wf(),
            s.rows() == Seq::<Row>::empty(),
            s.capacity() == size,
            s.used() == 0,
            s.engine().kind() == kind,
            s.engine().order() == Seq::<Seq<u8>>::empty(),
    {
        Storage { strategy: AnyStrategy::of(kind), max_size: size, allocated: 0 }
    }

    /// The bytes the stored values take.
    pub fn allocated(&self) -> (n: usize)
        ensures
            n == self.used(),
    {
        self.allocated
    }

    /// The memory budget in bytes.
    pub fn max_size(&self) -> (n: usize)
        ensures
            n == self.capacity(),
    {
        self.max_size
    }

    /// Reads `key` at clock reading `now`. An expired page is removed and
    /// reads as missing.
    pub fn get_at(&mut self, key: &Key, now: i128) -> (r: Result<Vec<u8>, StorageError>)
        requires
            old(self).wf(),
        ensures
            final(self).wf(),
            final(self).capacity() == old(self).capacity(),
            final(self).engine().kind() == old(self).engine().kind(),
            bytes_result(r) == get_outcome(old(self).rows(), key@, now),
            read_effect(*old(self), *final(self), key@, now),
            final(self).used() <= old(self).used(),
    {
        match self.strategy.get(key) {
            Some(page) => {
                if page.is_expired_at(now) {
                    let removed = self.strategy.deallocate(key);
                    self.allocated = self.allocated - match &removed {
                        Some(p) => p.size(),
                        None => 0,
                    };
                    Err(StorageError::NotFound)
                } else {
                    Ok(page.get_value())
                }
            },
            None => Err(StorageError::NotFound),
        }
    }

    /// Reads `key` by the clock's current reading.
    pub fn get(&mut self, key: &Key) -> (r: Result<Vec<u8>, StorageError>)
        requires
            old(self).wf(),
        ensures
            final(self).wf(),
            final(self).capacity() == old(self).capacity(),
            final(self).engine().kind() == old(self).engine().kind(),
            exists|now: i128|
                #[trigger] read_effect(*old(self), *final(self), key@, now) && bytes_result(r)
                    == get_outcome(old(self).rows(), key@, now),
            final(self).used() <= old(self).used(),
    {
        let now = now_nanos();
        let r = self.get_at(key, now);
        assert(read_effect(*old(self), *self, key@, now));
        r
    }

    /// Removes `key`. Always succeeds.
    pub fn del(&mut self, key: &Key) -> (r: Result<(), StorageError>)
        requires
            old(self).wf(),
        ensures
            final(self).wf(),
            r is Ok,
            final(self).capacity() == old(self).capacity(),
            final(self).engine().kind() == old(self).engine().kind(),
            delete_effect(*old(self), *final(self), key@),
            final(self).used() <= old(self).used(),
    {
        let removed = self.strategy.deallocate(key);
        self.allocated = self.allocated - match &removed {
            Some(p) => p.size(),
            None => 0,
        };
        Ok(())
    }

    /// Stores `value` under `key` with time to live `ttl` (milliseconds) at
    /// clock reading `now` (nanoseconds since the epoch). A value larger than the whole budget is refused.
    /// Otherwise, while a budget is set and the value does not fit, the
    /// strategy picks pages to remove, until it fits or the strategy has no
    /// page to offer.
    pub fn put_at(&mut self, key: Key, value: Vec<u8>, ttl: Option<u64>, now: i128) -> (r: Result<
        (),
        StorageError,
    >)
        requires
            old(self).wf(),
            old(self).used() + value@.len() <= usize::MAX,
            expiry_fits(ttl, now),
        ensures
            final(self).wf(),
            final(self).capacity() == old(self).capacity(),
            final(self).engine().kind() == old(self).engine().kind(),
            r is Err <==> value@.len() > old(self).capacity(),
            r is Err ==> r == Err::<(), StorageError>(StorageError::OutOfMemory) && *final(self)
                == *old(self),
            r is Ok ==> put_effect(*old(self), *final(self), key@, value@, ttl, now),
            old(self).engine().is_ordered() && old(self).used() <= old(self).capacity()
                ==> final(self).used() <= final(self).capacity(),
    {
        if self.max_size < value.len() {
            return Err(StorageError::OutOfMemory);
        }
        let page = Page::new_at(value, ttl, now);
        let size = page.size();
        let ghost o = self.strategy.order();
        let ghost oc = self.contents();
        let ghost ou = self.allocated as int;
        let ghost oi = self.strategy.items();
        let ghost mut n: nat = 0;
        proof {
            if self.strategy.is_ordered() {
                self.strategy.lemma_order();
                assert(o.skip(0) =~= o);
                assert(oc.remove_keys(o.take(0).to_set()) =~= oc);
            }
        }
        if self.max_size > 0 {
            loop
                invariant
                    o == old(self).strategy.order(),
                    oc == old(self).contents(),
                    ou == old(self).allocated,
                    oi == old(self).strategy.items(),
                    old(self).strategy.kind() == MaxMemoryStrategy::TimeToLive ==> ttl_make_room(
                        oi,
                        oc,
                        ou,
                        self.max_size as int,
                        size as int,
                        now,
                    ) == ttl_make_room(
                        self.strategy.items(),
                        self.contents(),
                        self.allocated as int,
                        self.max_size as int,
                        size as int,
                        now,
                    ),
                    old(self).strategy.is_ordered() ==> {
                        &&& queue_matches(o, old(self).rows())
                        &&& n <= o.len()
                        &&& self.strategy.order() == o.skip(n as int)
                        &&& self.contents() == oc.remove_keys(o.take(n as int).to_set())
                        &&& self.allocated == ou - freed(oc, o, n)
                        &&& forall|m: nat|
                            m < n ==> !has_room(
                                ou - #[trigger] freed(oc, o, m),
                                self.max_size as int,
                                size as int,
                            )
                    },
                    self.wf(),
                    self.max_size == old(self).max_size,
                    0 < self.max_size,
                    size <= self.max_size,
                    self.strategy.kind() == old(self).strategy.kind(),
                    self.allocated <= old(self).allocated,
                    self.contents().submap_of(old(self).contents()),
                    old(self).strategy.kind() == MaxMemoryStrategy::Simple ==> self.rows() == old(
                        self,
                    ).rows(),
                ensures
                    has_room(self.allocated as int, self.max_size as int, size as int) || (
                    self.strategy.is_ordered() ==> self.rows().len() == 0),
                    old(self).strategy.is_ordered() ==> eviction_count(
                        oc,
                        o,
                        ou,
                        self.max_size as int,
                        size as int,
                        n,
                    ),
                    old(self).strategy.kind() == MaxMemoryStrategy::TimeToLive ==> ttl_make_room(
                        oi,
                        oc,
                        ou,
                        self.max_size as int,
                        size as int,
                        now,
                    ) == (self.contents(), self.strategy.items(), self.allocated as int),
                decreases self.strategy.rows().len(),
            {
                if self.allocated <= self.max_size && self.max_size - self.allocated >= size {
                    break;
                }
                proof {
                    if self.strategy.is_ordered() {
                        self.strategy.lemma_order();
                    }
                }
                let ghost co = self.strategy.order();
                let ghost ci = self.strategy.items();
                let ghost cc = self.contents();
                let ghost cu = self.allocated as int;
                proof {
                    lemma_ttl_evict_shrinks(ci, cc, now);
                }
                match self.strategy.evict(now) {
                    None => {
                        proof {
                            if self.strategy.kind() == MaxMemoryStrategy::TimeToLive {
                                assert(self.strategy.items().len() == 0);
                                lemma_ttl_evict_shrinks(self.strategy.items(), cc, now);
                            }
                        }
                        break;
                    },
                    Some(k) => {
                        let ghost before = self.contents();
                        proof {
                            if self.strategy.is_ordered() {
                                assert(co[0] == o[n as int]);
                                assert(co.contains(k@));
                            }
                        }
                        let removed = self.strategy.deallocate(&k);
                        self.allocated = self.allocated - match &removed {
                            Some(p) => p.size(),
                            None => 0,
                        };
                        assert(self.contents().submap_of(before));
                        proof {
                            if self.strategy.kind() == MaxMemoryStrategy::TimeToLive {
                                assert(cc.contains_key(k@));
                                assert(self.contents() =~= cc.remove(k@));
                                assert(self.allocated == cu - cc[k@].value.len());
                            }
                            if self.strategy.is_ordered() {
                                lemma_without_at(co, 0);
                                assert(co.remove(0) =~= o.skip(n + 1int));
                                lemma_take_one_more(o, n as int);
                                assert(o.contains(o[n as int]));
                                assert(oc.contains_key(o[n as int]));
                                assert(!o.take(n as int).contains(o[n as int])) by {
                                    if o.take(n as int).contains(o[n as int]) {
                                        let i = choose|i: int|
                                            0 <= i < n && o.take(n as int)[i] == o[n as int];
                                        assert(o[i] == o[n as int]);
                                    }
                                }
                                assert(before.contains_key(k@));
                                assert(before[k@] == oc[k@]);
                                assert(removed is Some);
                                assert(self.allocated == ou - freed(oc, o, (n + 1) as nat));
                                assert(!has_room(ou - freed(oc, o, n), self.max_size as int, size as int));
                                assert(self.contents() =~= oc.remove_keys(
                                    o.take(n + 1int).to_set(),
                                ));
                                assert(freed(oc, o, (n + 1) as nat) == freed(oc, o, n) + oc[o[n as int]].value.len());
                                n = n + 1;
                            }
                        }
                    },
                }
            }
        }
        proof {
            if self.rows().len() == 0 {
                assert(total_size(self.rows()) == 0);
            }
        }
        let ghost before = self.contents();
        let replaced = self.strategy.allocate(key, page);
        self.allocated = self.allocated + size - match &replaced {
            Some(p) => p.size(),
            None => 0,
        };
        assert(self.contents().remove(key@) =~= before.remove(key@));
        assert(before.submap_of(old(self).contents()));
        assert(before.remove(key@).submap_of(old(self).contents()));
        Ok(())
    }

    /// Stores `value` under `key` with time to live `ttl` (milliseconds),
    /// the page made at the clock's current reading; as `put_at`.
    pub fn put(&mut self, key: Key, value: Vec<u8>, ttl: Option<u64>) -> (r: Result<
        (),
        StorageError,
    >)
        requires
            old(self).wf(),
            old(self).used() + value@.len() <= usize::MAX,
        ensures
            final(self).wf(),
            final(self).capacity() == old(self).capacity(),
            final(self).engine().kind() == old(self).engine().kind(),
            r is Err <==> value@.len() > old(self).capacity(),
            r is Err ==> r == Err::<(), StorageError>(StorageError::OutOfMemory) && *final(self)
                == *old(self),
            r is Ok ==> exists|now: i128|
                #[trigger] put_effect(*old(self), *final(self), key@, value@, ttl, now),
            old(self).engine().is_ordered() && old(self).used() <= old(self).capacity()
                ==> final(self).used() <= final(self).capacity(),
    {
        let now = now_nanos();
        let ghost kv = key@;
        let ghost vv = value@;
        let r = self.put_at(key, value, ttl, now);
        proof {
            if r is Ok {
                assert(put_effect(*old(self), *self, kv, vv, ttl, now));
            }
        }
        r
    }

    /// Sweeps out pages expired by the clock's current reading; as
    /// `sweep_expired`.
    pub fn sweep(&mut self)
        requires
            old(self).wf(),
        ensures
            final(self).wf(),
            final(self).capacity() == old(self).capacity(),
            final(self).engine().kind() == old(self).engine().kind(),
            final(self).contents().submap_of(old(self).contents()),
            exists|now: i128| #[trigger] swept(*old(self), *final(self), now),
            final(self).used() <= old(self).used(),
    {
        let now = now_nanos();
        self.sweep_expired(now);
        assert(swept(*old(self), *self, now));
    }

    /// One sweep round: of the pages with a time to live, looks at up to 20
    /// starting at position `offset`, and removes those expired at `now`.
    /// Returns how many it removed.
    pub fn sweep_round(&mut self, offset: usize, now: i128) -> (count: usize)
        requires
            old(self).wf(),
        ensures
            final(self).wf(),
            final(self).capacity() == old(self).capacity(),
            final(self).engine().kind() == old(self).engine().kind(),
            count == sweep_victims(old(self).rows(), offset as int, now).len(),
            final(self).contents() == old(self).contents().remove_keys(
                keys_of(sweep_victims(old(self).rows(), offset as int, now)).to_set(),
            ),
            count > 0 ==> final(self).rows().len() < old(self).rows().len(),
            final(self).rows().len() + count >= old(self).rows().len(),
            final(self).used() + total_size(sweep_victims(old(self).rows(), offset as int, now))
                == old(self).used(),
            final(self).used() <= old(self).used(),
            forall|k: Seq<u8>|
                #[trigger] old(self).contents().contains_key(k) && !final(self).contents().contains_key(k)
                    ==> expired(old(self).contents()[k], now),
            offset == 0 && old(self).rows().len() <= 20 ==> none_expired(final(self).contents(), now),
    {
        let ghost rows = self.rows();
        let mut keys: Vec<Key> = Vec::new();
        let ghost mut idx: Seq<int> = Seq::empty();
        {
            let table = self.strategy.table();
            let n = table.len();
            let mut seen: usize = 0;
            let mut i: usize = 0;
            while i < n
                invariant
                    table@ == rows,
                    n == rows.len(),
                    0 <= i <= n,
                    seen == with_ttl(rows.take(i as int)).len(),
                    keys@.map_values(|k: Key| k@) == keys_of(
                        window(with_ttl(rows.take(i as int)), offset as int).filter(
                            expired_row(now),
                        ),
                    ),
                    forall|j: int| 0 <= j < keys@.len() ==> has_key(rows, #[trigger] keys@[j]@),
                    idx.len() == keys@.len(),
                    forall|t: int|
                        0 <= t < idx.len() ==> 0 <= #[trigger] idx[t] < i && rows[idx[t]].0
                            == keys@[t]@,
                    forall|t: int, u: int| 0 <= t < u < idx.len() ==> #[trigger] idx[t] < #[trigger] idx[u],
                decreases n - i,
            {
                let ghost pre = rows.take(i as int);
                let ghost r = rows[i as int];
                assert(rows.take(i + 1int) =~= pre.push(r));
                proof {
                    lemma_with_ttl_push(pre, r);
                    lemma_window_push(with_ttl(pre), r, offset as int);
                    lemma_filter_push(window(with_ttl(pre), offset as int), r, expired_row(now));
                    with_ttl(pre).lemma_filter_len(crate::storage::model::has_ttl());
                }
                let page = table.page_at(i);
                if page.has_expiry() {
                    if seen >= offset && seen - offset < 20 && page.is_expired_at(now) {
                        let ghost before = keys@.map_values(|k: Key| k@);
                        let k = table.key_at(i).duplicate();
                        keys.push(k);
                        proof {
                            idx = idx.push(i as int);
                        }
                        assert(keys@.map_values(|k: Key| k@) =~= before.push(r.0));
                        assert(has_key(rows, rows[i as int].0));
                    }
                    seen = seen + 1;
                }
                i = i + 1;
            }
            assert(rows.take(n as int) =~= rows);
            assert(distinct_keys(rows));
        }
        let ghost victims = keys@.map_values(|k: Key| k@);
        let ghost v = sweep_victims(rows, offset as int, now);
        proof {
            assert(victims.no_duplicates()) by {
                assert forall|a: int, b: int|
                    0 <= a < victims.len() && 0 <= b < victims.len() && a != b implies victims[a]
                    != victims[b] by {
                    assert(victims[a] == rows[idx[a]].0);
                    assert(victims[b] == rows[idx[b]].0);
                    if a < b {
                        assert(idx[a] < idx[b]);
                    } else {
                        assert(idx[b] < idx[a]);
                    }
                }
            }
            assert(keys_of(v) == victims);
            let w = window(with_ttl(rows), offset as int);
            assert forall|t: int| 0 <= t < v.len() implies #[trigger] old(self).contents().contains_key(
                v[t].0,
            ) && old(self).contents()[v[t].0] == v[t].1 by {
                assert(v.contains(v[t]));
                w.lemma_filter_contains_rev(expired_row(now), v[t]);
                let b = choose|b: int| 0 <= b < w.len() && w[b] == v[t];
                let c = with_ttl(rows);
                let lo = if (offset as int) < c.len() { offset as int } else { c.len() as int };
                assert(c[lo + b] == v[t]);
                assert(c.contains(v[t]));
                rows.lemma_filter_contains_rev(crate::storage::model::has_ttl(), v[t]);
                let d = choose|d: int| 0 <= d < rows.len() && rows[d] == v[t];
                lemma_lookup_at(rows, d);
            }
            assert(v.take(0) =~= Seq::<Row>::empty());
        }
        let count = keys.len();
        assert(forall|t: int|
            0 <= t < v.len() ==> #[trigger] old(self).contents().contains_key(v[t].0) && old(
                self,
            ).contents()[v[t].0] == v[t].1);
        let ghost start_len = self.rows().len();
        let mut j: usize = 0;
        while j < count
            invariant
                self.wf(),
                self.max_size == old(self).max_size,
                self.strategy.kind() == old(self).strategy.kind(),
                self.allocated <= old(self).allocated,
                count == keys@.len(),
                victims == keys@.map_values(|k: Key| k@),
                0 <= j <= count,
                self.contents() == old(self).contents().remove_keys(victims.take(j as int).to_set()),
                forall|t: int| 0 <= t < keys@.len() ==> has_key(rows, #[trigger] keys@[t]@),
                rows == old(self).rows(),
                j > 0 ==> self.rows().len() < rows.len(),
                self.rows().len() <= rows.len(),
                self.rows().len() + j >= rows.len(),
                victims.no_duplicates(),
                keys_of(v) == victims,
                forall|t: int|
                    0 <= t < v.len() ==> #[trigger] old(self).contents().contains_key(v[t].0)
                        && old(self).contents()[v[t].0] == v[t].1,
                self.allocated + total_size(v.take(j as int)) == old(self).allocated,
            decreases count - j,
        {
            let ghost before = self.contents();
            let ghost before_len = self.rows().len();
            proof {
                if j == 0 {
                    assert(victims.take(0).to_set() =~= Set::<Seq<u8>>::empty());
                    assert(before =~= old(self).contents());
                    assert(has_key(rows, keys@[0]@));
                    assert(as_map(rows).dom().contains(keys@[0]@));
                }
            }
            let removed = self.strategy.deallocate(&keys[j]);
            self.allocated = self.allocated - match &removed {
                Some(p) => p.size(),
                None => 0,
            };
            proof {
                let t0 = victims.take(j as int);
                let t1 = victims.take(j + 1int);
                lemma_take_one_more(victims, j as int);
                assert(self.contents() =~= old(self).contents().remove_keys(t1.to_set()));
                assert(!t0.contains(victims[j as int])) by {
                    if t0.contains(victims[j as int]) {
                        let a = choose|a: int| 0 <= a < t0.len() && t0[a] == victims[j as int];
                        assert(victims[a] == victims[j as int]);
                    }
                }
                assert(keys_of(v).len() == v.len());
                assert(keys_of(v)[j as int] == v[j as int].0);
                assert(v[j as int].0 == victims[j as int]);
                assert(old(self).contents().contains_key(v[j as int].0));
                assert(!t0.to_set().contains(v[j as int].0));
                assert(before.contains_key(v[j as int].0));
                assert(before[v[j as int].0] == v[j as int].1);
                assert(removed is Some);
                assert(v.take(j + 1int).len() == j + 1);
                assert(v.take(j + 1int).drop_last() =~= v.take(j as int));
                assert(v.take(j + 1int).last() == v[j as int]);
                assert(total_size(v.take(j + 1int)) == total_size(v.take(j as int))
                    + v[j as int].1.value.len());
            }
            j = j + 1;
        }
        assert(victims.take(count as int) =~= victims);
        assert(v.take(count as int) =~= v);
        proof {
            let w = window(with_ttl(rows), offset as int);
            assert forall|k: Seq<u8>|
                #[trigger] old(self).contents().contains_key(k) && !self.contents().contains_key(
                    k,
                ) implies expired(old(self).contents()[k], now) by {
                assert(keys_of(v).to_set().contains(k));
                let a = choose|a: int| 0 <= a < keys_of(v).len() && keys_of(v)[a] == k;
                assert(v[a].0 == k);
                w.lemma_filter_pred(expired_row(now), a);
                assert(v.contains(v[a]));
                w.lemma_filter_contains_rev(expired_row(now), v[a]);
                let b = choose|b: int| 0 <= b < w.len() && w[b] == v[a];
                let c = with_ttl(rows);
                let lo = if (offset as int) < c.len() { offset as int } else { c.len() as int };
                assert(c[lo + b] == v[a]);
                assert(c.contains(v[a]));
                rows.lemma_filter_contains_rev(crate::storage::model::has_ttl(), v[a]);
                let d = choose|d: int| 0 <= d < rows.len() && rows[d] == v[a];
                lemma_lookup_at(rows, d);
            }
            if offset == 0 && rows.len() <= 20 {
                let c = with_ttl(rows);
                rows.lemma_filter_len(crate::storage::model::has_ttl());
                assert(w =~= c);
                assert forall|k: Seq<u8>| #[trigger] self.contents().contains_key(k) implies !expired(
                    self.contents()[k],
                    now,
                ) by {
                    assert(old(self).contents().contains_key(k));
                    assert(self.contents()[k] == old(self).contents()[k]);
                    let d = choose|d: int| 0 <= d < rows.len() && #[trigger] rows[d].0 == k;
                    lemma_lookup_at(rows, d);
                    if expired(rows[d].1, now) {
                        rows.lemma_filter_contains(crate::storage::model::has_ttl(), d);
                        let b = choose|b: int| 0 <= b < c.len() && c[b] == rows[d];
                        w.lemma_filter_contains(expired_row(now), b);
                        let a = choose|a: int| 0 <= a < v.len() && v[a] == rows[d];
                        assert(keys_of(v)[a] == k);
                        assert(keys_of(v).to_set().contains(k));
                    }
                }
            }
        }
        count
    }

    /// Sweeps out expired pages the way a background sweeper does: rounds at
    /// random positions, until a round removes fewer than five pages.
    /// Only pages expired at `now` are removed.
    pub fn sweep_expired(&mut self, now: i128)
        requires
            old(self).wf(),
        ensures
            final(self).wf(),
            final(self).capacity() == old(self).capacity(),
            final(self).engine().kind() == old(self).engine().kind(),
            final(self).contents().submap_of(old(self).contents()),
            forall|k: Seq<u8>|
                #[trigger] old(self).contents().contains_key(k) && !final(self).contents().contains_key(k)
                    ==> expired(old(self).contents()[k], now),
            final(self).used() <= old(self).used(),
            final(self).rows().len() <= 16 ==> none_expired(final(self).contents(), now),
            exists|r: Seq<Row>, offset: int|
                #[trigger] last_sweep_round(
                    old(self).contents(),
                    r,
                    offset,
                    now,
                    final(self).contents(),
                ),
    {
        let mut rng = thread_rng();
        loop
            invariant
                self.wf(),
                self.max_size == old(self).max_size,
                self.strategy.kind() == old(self).strategy.kind(),
                self.allocated <= old(self).allocated,
                self.contents().submap_of(old(self).contents()),
                forall|k: Seq<u8>|
                    #[trigger] old(self).contents().contains_key(k) && !self.contents().contains_key(k)
                        ==> expired(old(self).contents()[k], now),
            ensures
                self.rows().len() <= 16 ==> none_expired(self.contents(), now),
                exists|r: Seq<Row>, offset: int|
                    #[trigger] last_sweep_round(old(self).contents(), r, offset, now, self.contents()),
            decreases self.rows().len(),
        {
            let len = self.strategy.table().len();
            let bound: usize = if len > 20 {
                len - 20
            } else {
                0
            };
            let offset: usize = if bound > 0 {
                gen_below(&mut rng, bound)
            } else {
                0
            };
            let ghost before = self.contents();
            let ghost brows = self.rows();
            proof {
                self.lemma_accounting();
            }
            let count = self.sweep_round(offset, now);
            if count < 5 {
                assert(last_sweep_round(old(self).contents(), brows, offset as int, now, self.contents()));
                break;
            }
        }
    }
}

} // verus!
