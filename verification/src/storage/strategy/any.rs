//! One of the four strategies, chosen when the storage is made.

use crate::storage::key::Key;
use crate::storage::model::{as_map, expiry, Row};
use crate::storage::strategy::fifo::FirstInFirstOut;
use crate::storage::strategy::lru::LeastRecentUsed;
use crate::storage::strategy::queue::{queue_matches, to_back, without};
use crate::storage::strategy::simple::Simple;
use crate::storage::strategy::table::PageTable;
use crate::storage::strategy::ttl::{ttl_evict, Item, TimeToLive};
use crate::storage::strategy::{Page, Strategy};
use crate::storage::MaxMemoryStrategy;
use vstd::prelude::*;

verus! {

/// The strategy a storage runs.
pub enum AnyStrategy {
    Simple(Simple),
    LeastRecentUsed(LeastRecentUsed),
    FirstInFirstOut(FirstInFirstOut),
    TimeToLive(TimeToLive),
}

impl AnyStrategy {
    /// Which strategy this is.
    pub open spec fn kind(&self) -> MaxMemoryStrategy {
        match self {
            AnyStrategy::Simple(_) => MaxMemoryStrategy::Simple,
            AnyStrategy::LeastRecentUsed(_) => MaxMemoryStrategy::LeastRecentUsed,
            AnyStrategy::FirstInFirstOut(_) => MaxMemoryStrategy::FirstInFirstOut,
            AnyStrategy::TimeToLive(_) => MaxMemoryStrategy::TimeToLive,
        }
    }

    /// The strategy keeps its keys in an eviction order.
    pub open spec fn is_ordered(&self) -> bool {
        self.kind() == MaxMemoryStrategy::LeastRecentUsed || self.kind()
            == MaxMemoryStrategy::FirstInFirstOut
    }

    /// The eviction order of the ordered strategies, first victim first.
    pub open spec fn order(&self) -> Seq<Seq<u8>> {
        match self {
            AnyStrategy::LeastRecentUsed(s) => s.order(),
            AnyStrategy::FirstInFirstOut(s) => s.order(),
            _ => Seq::empty(),
        }
    }

    /// The expiry schedule of the time-to-live strategy.
    pub open spec fn items(&self) -> Seq<Item> {
        match self {
            AnyStrategy::TimeToLive(s) => s.items(),
            _ => Seq::empty(),
        }
    }

    /// The order of an ordered strategy lists each stored key exactly once.
    pub proof fn lemma_order(&self)
        requires
            self.wf(),
            self.is_ordered(),
        ensures
            queue_matches(self.order(), self.rows()),
    {
        match self {
            AnyStrategy::LeastRecentUsed(s) => s.lemma_order(),
            AnyStrategy::FirstInFirstOut(s) => s.lemma_order(),
            _ => {},
        }
    }

    /// Keys the time-to-live strategy handed out for eviction and that have
    /// been neither stored nor removed since.
    pub open spec fn unscheduled(&self) -> Set<Seq<u8>> {
        match self {
            AnyStrategy::TimeToLive(s) => s.unscheduled(),
            _ => Set::empty(),
        }
    }

    /// An empty strategy of the given kind.
    pub fn of(kind: MaxMemoryStrategy) -> (s: AnyStrategy)
        ensures
            s.wf(),
            s.rows() == Seq::<Row>::empty(),
            s.kind() == kind,
            s.order() == Seq::<Seq<u8>>::empty(),
            s.items() == Seq::<Item>::empty(),
            s.unscheduled() == Set::<Seq<u8>>::empty(),
    {
        match kind {
            MaxMemoryStrategy::Simple => AnyStrategy::Simple(Simple::new()),
            MaxMemoryStrategy::LeastRecentUsed => AnyStrategy::LeastRecentUsed(
                LeastRecentUsed::new(),
            ),
            MaxMemoryStrategy::FirstInFirstOut => AnyStrategy::FirstInFirstOut(
                FirstInFirstOut::new(),
            ),
            MaxMemoryStrategy::TimeToLive => AnyStrategy::TimeToLive(TimeToLive::new()),
        }
    }
}

impl Strategy for AnyStrategy {
    open spec fn rows(&self) -> Seq<Row> {
        match self {
            AnyStrategy::Simple(s) => s.rows(),
            AnyStrategy::LeastRecentUsed(s) => s.rows(),
            AnyStrategy::FirstInFirstOut(s) => s.rows(),
            AnyStrategy::TimeToLive(s) => s.rows(),
        }
    }

    open spec fn wf(&self) -> bool {
        match self {
            AnyStrategy::Simple(s) => s.wf(),
            AnyStrategy::LeastRecentUsed(s) => s.wf(),
            AnyStrategy::FirstInFirstOut(s) => s.wf(),
            AnyStrategy::TimeToLive(s) => s.wf(),
        }
    }

    /// A simple strategy.
    fn new() -> (s: Self)
        ensures
            s.kind() == MaxMemoryStrategy::Simple,
    {
        AnyStrategy::Simple(Simple::new())
    }

    fn get(&mut self, key: &Key) -> (r: Option<Page>)
        ensures
            final(self).kind() == old(self).kind(),
            final(self).items() == old(self).items(),
            final(self).unscheduled() == old(self).unscheduled(),
            final(self).order() == if old(self).kind() == MaxMemoryStrategy::LeastRecentUsed
                && r is Some {
                to_back(old(self).order(), key@)
            } else {
                old(self).order()
            },
    {
        match self {
            AnyStrategy::Simple(s) => s.get(key),
            AnyStrategy::LeastRecentUsed(s) => s.get(key),
            AnyStrategy::FirstInFirstOut(s) => s.get(key),
            AnyStrategy::TimeToLive(s) => s.get(key),
        }
    }

    fn allocate(&mut self, key: Key, page: Page) -> (r: Option<Page>)
        ensures
            final(self).kind() == old(self).kind(),
            final(self).unscheduled() == old(self).unscheduled().remove(key@),
            old(self).is_ordered() ==> final(self).order() == to_back(old(self).order(), key@),
            old(self).kind() == MaxMemoryStrategy::TimeToLive ==> final(self).items() == match expiry(
                page@,
            ) {
                Some(e) => old(self).items().push((e, key@)),
                None => old(self).items(),
            },
    {
        match self {
            AnyStrategy::Simple(s) => s.allocate(key, page),
            AnyStrategy::LeastRecentUsed(s) => s.allocate(key, page),
            AnyStrategy::FirstInFirstOut(s) => s.allocate(key, page),
            AnyStrategy::TimeToLive(s) => s.allocate(key, page),
        }
    }

    fn deallocate(&mut self, key: &Key) -> (r: Option<Page>)
        ensures
            final(self).kind() == old(self).kind(),
            final(self).items() == old(self).items(),
            final(self).unscheduled() == old(self).unscheduled().remove(key@),
            final(self).order() == if old(self).is_ordered() {
                without(old(self).order(), key@)
            } else {
                old(self).order()
            },
    {
        match self {
            AnyStrategy::Simple(s) => s.deallocate(key),
            AnyStrategy::LeastRecentUsed(s) => s.deallocate(key),
            AnyStrategy::FirstInFirstOut(s) => s.deallocate(key),
            AnyStrategy::TimeToLive(s) => s.deallocate(key),
        }
    }

    fn evict(&mut self, now: i128) -> (r: Option<Key>)
        ensures
            final(self).kind() == old(self).kind(),
            final(self).order() == old(self).order(),
            final(self).unscheduled() == match r {
                Some(k) => if old(self).kind() == MaxMemoryStrategy::TimeToLive {
                    old(self).unscheduled().insert(k@)
                } else {
                    old(self).unscheduled()
                },
                None => old(self).unscheduled(),
            },
            old(self).kind() == MaxMemoryStrategy::Simple ==> r is None,
            old(self).is_ordered() ==> (r is None <==> old(self).rows().len() == 0),
            old(self).is_ordered() ==> match r {
                Some(k) => old(self).order().len() > 0 && k@ == old(self).order()[0],
                None => old(self).order().len() == 0,
            },
            old(self).kind() == MaxMemoryStrategy::TimeToLive ==> {
                &&& final(self).items() == ttl_evict(old(self).items(), as_map(old(self).rows()), now).1
                &&& match r {
                    Some(k) => ttl_evict(old(self).items(), as_map(old(self).rows()), now).0 == Some(
                        k@,
                    ),
                    None => ttl_evict(old(self).items(), as_map(old(self).rows()), now).0 is None,
                }
            },
    {
        match self {
            AnyStrategy::Simple(s) => s.evict(now),
            AnyStrategy::LeastRecentUsed(s) => s.evict(now),
            AnyStrategy::FirstInFirstOut(s) => s.evict(now),
            AnyStrategy::TimeToLive(s) => s.evict(now),
        }
    }

    proof fn lemma_distinct(&self) {
        match self {
            AnyStrategy::Simple(s) => s.lemma_distinct(),
            AnyStrategy::LeastRecentUsed(s) => s.lemma_distinct(),
            AnyStrategy::FirstInFirstOut(s) => s.lemma_distinct(),
            AnyStrategy::TimeToLive(s) => s.lemma_distinct(),
        }
    }

    fn table(&self) -> (t: &PageTable) {
        match self {
            AnyStrategy::Simple(s) => s.table(),
            AnyStrategy::LeastRecentUsed(s) => s.table(),
            AnyStrategy::FirstInFirstOut(s) => s.table(),
            AnyStrategy::TimeToLive(s) => s.table(),
        }
    }
}

} // verus!
