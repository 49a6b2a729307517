//! First in, first out: the page stored longest ago leaves first.

use crate::storage::key::Key;
use crate::storage::model::{has_key, Row};
use crate::storage::strategy::queue::{
    lemma_matches_after_remove, lemma_matches_after_store, queue_matches, to_back, without,
    KeyQueue,
};
use crate::storage::strategy::table::PageTable;
use crate::storage::strategy::{Page, Strategy};
use vstd::prelude::*;

verus! {

/// A page table plus the order in which keys were stored.
pub struct FirstInFirstOut {
    table: PageTable,
    queue: KeyQueue,
}

impl FirstInFirstOut {
    /// The keys, oldest store first.
    pub closed spec fn order(&self) -> Seq<Seq<u8>> {
        self.queue@
    }

    /// The order lists each stored key exactly once.
    pub proof fn lemma_order(&self)
        requires
            self.wf(),
        ensures
            queue_matches(self.order(), self.rows()),
    {
    }
}

impl Strategy for FirstInFirstOut {
    closed spec fn rows(&self) -> Seq<Row> {
        self.table@
    }

    closed spec fn wf(&self) -> bool {
        self.table.wf() && queue_matches(self.queue@, self.table@)
    }

    fn new() -> (s: Self)
        ensures
            s.order() == Seq::<Seq<u8>>::empty(),
    {
        FirstInFirstOut { table: PageTable::new(), queue: KeyQueue::new() }
    }

    /// Reading leaves the order as it is.
    fn get(&mut self, key: &Key) -> (r: Option<Page>)
        ensures
            final(self).order() == old(self).order(),
    {
        match self.table.get(key) {
            Some(p) => Some(p.duplicate()),
            None => None,
        }
    }

    /// The stored key goes to the back of the order, as the newest.
    fn allocate(&mut self, key: Key, page: Page) -> (r: Option<Page>)
        ensures
            final(self).order() == to_back(old(self).order(), key@),
    {
        let ghost old_rows = self.table@;
        let ghost old_order = self.queue@;
        let k = key.duplicate();
        let r = self.table.insert(key, page);
        self.queue.move_to_back(k);
        proof {
            lemma_matches_after_store(old_order, old_rows, self.table@, k@);
        }
        r
    }

    /// The key leaves the order.
    fn deallocate(&mut self, key: &Key) -> (r: Option<Page>)
        ensures
            final(self).order() == without(old(self).order(), key@),
    {
        let ghost old_rows = self.table@;
        let ghost old_order = self.queue@;
        let r = self.table.remove(key);
        self.queue.remove_key(key);
        proof {
            lemma_matches_after_remove(old_order, old_rows, self.table@, key@);
        }
        r
    }

    /// The oldest key is chosen; nothing changes.
    fn evict(&mut self, now: i128) -> (r: Option<Key>)
        ensures
            final(self).order() == old(self).order(),
            match r {
                Some(k) => old(self).order().len() > 0 && k@ == old(self).order()[0],
                None => old(self).order().len() == 0,
            },
            r is None <==> old(self).rows().len() == 0,
    {
        if self.table.len() > 0 {
            let ghost k0 = self.table@[0].0;
            assert(has_key(self.table@, k0));
            assert(self.queue@.contains(k0));
        }
        match self.queue.front() {
            Some(k) => {
                assert(self.queue@.contains(k@)) by {
                    assert(self.queue@[0] == k@);
                }
                Some(k.duplicate())
            },
            None => None,
        }
    }

    proof fn lemma_distinct(&self) {
    }

    fn table(&self) -> (t: &PageTable) {
        &self.table
    }
}

} // verus!
