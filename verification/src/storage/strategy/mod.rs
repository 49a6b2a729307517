//! Pages, and the strategies that decide which page leaves when memory runs
//! short.

use crate::storage::clock::now_nanos;
use crate::storage::key::Key;
use crate::storage::model::{
    as_map, distinct_keys, expired, expiry, expiry_fits, has_key, keys_of, lookup, total_size, PageView, Row,
};
use crate::storage::strategy::table::PageTable;
use vstd::prelude::*;

pub mod any;
pub mod fifo;
pub mod lru;
pub mod queue;
pub mod simple;
pub mod table;
pub mod ttl;

verus! {

/// A stored value with its optional time to live.
pub struct Page {
    ttl: Option<u64>,
    created_at: i128,
    value: Vec<u8>,
}

impl View for Page {
    type V = PageView;

    closed spec fn view(&self) -> PageView {
        PageView { value: self.value@, ttl: self.ttl, created_at: self.created_at }
    }
}

/// `e` is the expiry time of `p`, as the model states it.
pub open spec fn expiry_matches(p: PageView, e: Option<i128>) -> bool {
    match e {
        Some(t) => expiry(p) == Some(t as int),
        None => expiry(p) is None,
    }
}

impl Page {
    /// The expiry time can be computed without overflow.
    #[verifier::type_invariant]
    spec fn expiry_representable(self) -> bool {
        expiry_fits(self.ttl, self.created_at)
    }

    /// A page made now, from the clock's reading.
    pub fn new(value: Vec<u8>, ttl: Option<u64>) -> (p: Page)
        ensures
            p@.value == value@,
            p@.ttl == ttl,
    {
        let now = now_nanos();
        Page::new_at(value, ttl, now)
    }

    /// A page made at clock reading `now`, in nanoseconds since the epoch.
    pub fn new_at(value: Vec<u8>, ttl: Option<u64>, now: i128) -> (p: Page)
        requires
            expiry_fits(ttl, now),
        ensures
            p@ == (PageView { value: value@, ttl, created_at: now }),
    {
        Page { created_at: now, ttl, value }
    }

    /// The time at which the page expires: creation time plus time to live,
    /// in nanoseconds since the epoch.
    pub fn expired_at(&self) -> (e: Option<i128>)
        ensures
            expiry_matches(self@, e),
    {
        proof {
            use_type_invariant(self);
        }
        match self.ttl {
            Some(t) => {
                let nanos: i128 = t as i128 * 1_000_000;
                Some(self.created_at + nanos)
            },
            None => None,
        }
    }

    /// Whether the page has expired at clock reading `now`.
    pub fn is_expired_at(&self, now: i128) -> (b: bool)
        ensures
            b == expired(self@, now),
    {
        match self.expired_at() {
            Some(e) => e <= now,
            None => false,
        }
    }

    /// Whether the page has expired by the clock's current reading.
    pub fn is_expired(&self) -> (b: bool)
        ensures
            exists|now: i128| b == #[trigger] expired(self@, now),
    {
        let now = now_nanos();
        self.is_expired_at(now)
    }

    /// A copy of the stored bytes.
    pub fn get_value(&self) -> (v: Vec<u8>)
        ensures
            v@ == self@.value,
    {
        vstd::slice::slice_to_vec(self.value.as_slice())
    }

    /// Number of stored bytes.
    pub fn size(&self) -> (n: usize)
        ensures
            n == self@.value.len(),
    {
        self.value.len()
    }

    /// Whether the page has a time to live.
    pub fn has_expiry(&self) -> (b: bool)
        ensures
            b == self@.ttl is Some,
    {
        self.ttl.is_some()
    }

    /// A second page equal to this one.
    pub fn duplicate(&self) -> (p: Page)
        ensures
            p@ == self@,
    {
        proof {
            use_type_invariant(self);
        }
        Page { ttl: self.ttl, created_at: self.created_at, value: self.get_value() }
    }
}

impl Clone for Page {
    fn clone(&self) -> (p: Self)
        ensures
            p@ == self@,
    {
        self.duplicate()
    }
}

/// The page size of an optional page, zero for none.
pub open spec fn size_of(r: Option<Page>) -> nat {
    match r {
        Some(p) => p@.value.len(),
        None => 0,
    }
}

/// `r` is what the rows held under `key` before.
pub open spec fn found_in(r: Option<Page>, rows: Seq<Row>, key: Seq<u8>) -> bool {
    match r {
        Some(p) => lookup(rows, key) == Some(p@),
        None => lookup(rows, key) is None,
    }
}

/// A page-replacement strategy: a table of pages plus whatever bookkeeping
/// the strategy needs to pick the page that leaves first.
pub trait Strategy: Sized {
    /// The rows of the table, in order.
    spec fn rows(&self) -> Seq<Row>;

    /// The strategy's bookkeeping agrees with its table.
    spec fn wf(&self) -> bool;

    /// An empty strategy.
    fn new() -> (s: Self)
        ensures
            s.wf(),
            s.rows() == Seq::<Row>::empty(),
    ;

    /// A copy of the page stored under `key`. The table stays as it is.
    fn get(&mut self, key: &Key) -> (r: Option<Page>)
        requires
            old(self).wf(),
        ensures
            final(self).wf(),
            final(self).rows() == old(self).rows(),
            found_in(r, old(self).rows(), key@),
    ;

    /// Stores `page` under `key`, returning the page it replaces.
    fn allocate(&mut self, key: Key, page: Page) -> (r: Option<Page>)
        requires
            old(self).wf(),
        ensures
            final(self).wf(),
            as_map(final(self).rows()) == as_map(old(self).rows()).insert(key@, page@),
            found_in(r, old(self).rows(), key@),
            total_size(final(self).rows()) + size_of(r) == total_size(old(self).rows())
                + page@.value.len(),
            r is Some ==> keys_of(final(self).rows()) == keys_of(old(self).rows()),
            r is None ==> final(self).rows() == old(self).rows().push((key@, page@)),
    ;

    /// Removes the page stored under `key`, returning it.
    fn deallocate(&mut self, key: &Key) -> (r: Option<Page>)
        requires
            old(self).wf(),
        ensures
            final(self).wf(),
            as_map(final(self).rows()) == as_map(old(self).rows()).remove(key@),
            found_in(r, old(self).rows(), key@),
            total_size(final(self).rows()) + size_of(r) == total_size(old(self).rows()),
            r is Some ==> final(self).rows().len() + 1 == old(self).rows().len(),
            r is None ==> final(self).rows() == old(self).rows(),
    ;

    /// The key whose page should leave next, if any. The table stays as it
    /// is; `now` is the clock reading against which expiry is judged.
    fn evict(&mut self, now: i128) -> (r: Option<Key>)
        requires
            old(self).wf(),
        ensures
            final(self).wf(),
            final(self).rows() == old(self).rows(),
            match r {
                Some(k) => has_key(old(self).rows(), k@),
                None => true,
            },
    ;

    /// No key occurs in two rows.
    proof fn lemma_distinct(&self)
        requires
            self.wf(),
        ensures
            distinct_keys(self.rows()),
    ;

    /// The table, for walking its rows.
    fn table(&self) -> (t: &PageTable)
        requires
            self.wf(),
        ensures
            t@ == self.rows(),
            t.wf(),
    ;
}

} // verus!
