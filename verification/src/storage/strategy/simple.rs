//! The strategy that never evicts: memory simply fills up.

use crate::storage::key::Key;
use crate::storage::model::Row;
use crate::storage::strategy::table::PageTable;
use crate::storage::strategy::{Page, Strategy};
use vstd::prelude::*;

verus! {

/// A plain table of pages with no eviction order.
pub struct Simple {
    table: PageTable,
}

impl Strategy for Simple {
    closed spec fn rows(&self) -> Seq<Row> {
        self.table@
    }

    closed spec fn wf(&self) -> bool {
        self.table.wf()
    }

    fn new() -> (s: Self) {
        Simple { table: PageTable::new() }
    }

    fn get(&mut self, key: &Key) -> (r: Option<Page>) {
        match self.table.get(key) {
            Some(p) => Some(p.duplicate()),
            None => None,
        }
    }

    fn allocate(&mut self, key: Key, page: Page) -> (r: Option<Page>) {
        self.table.insert(key, page)
    }

    fn deallocate(&mut self, key: &Key) -> (r: Option<Page>) {
        self.table.remove(key)
    }

    /// Nothing is ever chosen for eviction.
    fn evict(&mut self, now: i128) -> (r: Option<Key>)
        ensures
            r is None,
    {
        None
    }

    proof fn lemma_distinct(&self) {
    }

    fn table(&self) -> (t: &PageTable) {
        &self.table
    }
}

} // verus!
