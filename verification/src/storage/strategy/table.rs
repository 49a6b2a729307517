//! The page table every strategy keeps: rows of key and page, no key twice.

use crate::storage::key::Key;
use crate::storage::model::{
    as_map, distinct_keys, has_key, keys_of, lemma_lookup_at, lemma_push, lemma_remove, lemma_update,
    lookup, total_size, Row,
};
use crate::storage::strategy::Page;
use vstd::prelude::*;

verus! {

/// An ordered table of pages, one per key.
pub struct PageTable {
    rows: Vec<(Key, Page)>,
}

impl View for PageTable {
    type V = Seq<Row>;

    closed spec fn view(&self) -> Seq<Row> {
        self.rows@.map_values(|r: (Key, Page)| (r.0@, r.1@))
    }
}

impl PageTable {
    /// No key occurs twice.
    pub open spec fn wf(&self) -> bool {
        distinct_keys(self@)
    }

    /// An empty table.
    pub fn new() -> (t: PageTable)
        ensures
            t.wf(),
            t@ == Seq::<Row>::empty(),
    {
        let t = PageTable { rows: Vec::new() };
        assert(t@ =~= Seq::<Row>::empty());
        t
    }

    /// Number of rows.
    pub fn len(&self) -> (n: usize)
        ensures
            n == self@.len(),
    {
        self.rows.len()
    }

    /// The row that holds `key`, if any.
    pub fn find(&self, key: &Key) -> (r: Option<usize>)
        ensures
            match r {
                Some(i) => i < self@.len() && self@[i as int].0 == key@,
                None => !has_key(self@, key@),
            },
    {
        let n = self.rows.len();
        let mut i: usize = 0;
        while i < n
            invariant
                n == self@.len(),
                0 <= i <= n,
                forall|j: int| 0 <= j < i ==> self@[j].0 != key@,
            decreases n - i,
        {
            if self.rows[i].0.same_as(key) {
                return Some(i);
            }
            i = i + 1;
        }
        assert forall|j: int| 0 <= j < self@.len() implies #[trigger] self@[j].0 != key@ by {}
        None
    }

    /// The key of row `i`.
    pub fn key_at(&self, i: usize) -> (k: &Key)
        requires
            i < self@.len(),
        ensures
            k@ == self@[i as int].0,
    {
        &self.rows[i].0
    }

    /// The page of row `i`.
    pub fn page_at(&self, i: usize) -> (p: &Page)
        requires
            i < self@.len(),
        ensures
            p@ == self@[i as int].1,
    {
        &self.rows[i].1
    }

    /// The page stored under `key`, if any.
    pub fn get(&self, key: &Key) -> (r: Option<&Page>)
        requires
            self.wf(),
        ensures
            match r {
                Some(p) => lookup(self@, key@) == Some(p@),
                None => lookup(self@, key@) is None,
            },
    {
        match self.find(key) {
            Some(i) => {
                proof {
                    lemma_lookup_at(self@, i as int);
                }
                Some(&self.rows[i].1)
            },
            None => None,
        }
    }

    /// Stores `page` under `key`; a key already present keeps its row and
    /// gets the new page, a new key goes last. Returns the replaced page.
    pub fn insert(&mut self, key: Key, page: Page) -> (r: Option<Page>)
        requires
            old(self).wf(),
        ensures
            final(self).wf(),
            as_map(final(self)@) == as_map(old(self)@).insert(key@, page@),
            match r {
                Some(p) => lookup(old(self)@, key@) == Some(p@),
                None => lookup(old(self)@, key@) is None,
            },
            total_size(final(self)@) + (match r {
                Some(p) => p@.value.len(),
                None => 0nat,
            }) == total_size(old(self)@) + page@.value.len(),
            r is Some ==> keys_of(final(self)@) == keys_of(old(self)@),
            r is None ==> final(self)@ == old(self)@.push((key@, page@)),
    {
        match self.find(&key) {
            Some(i) => {
                let ghost before = self@;
                proof {
                    lemma_lookup_at(before, i as int);
                    lemma_update(before, i as int, page@);
                }
                let (k, old_page) = self.rows.remove(i);
                self.rows.insert(i, (k, page));
                assert(self@ =~= before.update(i as int, (before[i as int].0, page@)));
                Some(old_page)
            },
            None => {
                let ghost before = self@;
                proof {
                    lemma_push(before, (key@, page@));
                }
                self.rows.push((key, page));
                assert(self@ =~= before.push((key@, page@)));
                None
            },
        }
    }

    /// Removes the row of `key`, returning its page.
    pub fn remove(&mut self, key: &Key) -> (r: Option<Page>)
        requires
            old(self).wf(),
        ensures
            final(self).wf(),
            as_map(final(self)@) == as_map(old(self)@).remove(key@),
            match r {
                Some(p) => lookup(old(self)@, key@) == Some(p@),
                None => lookup(old(self)@, key@) is None && final(self)@ == old(self)@,
            },
            total_size(final(self)@) + (match r {
                Some(p) => p@.value.len(),
                None => 0nat,
            }) == total_size(old(self)@),
            r is Some ==> final(self)@.len() + 1 == old(self)@.len(),
    {
        match self.find(key) {
            Some(i) => {
                let ghost before = self@;
                proof {
                    lemma_lookup_at(before, i as int);
                    lemma_remove(before, i as int);
                }
                let (_k, p) = self.rows.remove(i);
                assert(self@ =~= before.remove(i as int));
                Some(p)
            },
            None => {
                assert(as_map(self@) =~= as_map(self@).remove(key@));
                None
            },
        }
    }
}

} // verus!
