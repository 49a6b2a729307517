//! Time to live: pages leave in the order of their expiry times.

use crate::storage::key::Key;
use crate::storage::model::{as_map, expired, expiry, lemma_map_lookup, PageView, Row};
use crate::storage::strategy::table::PageTable;
use crate::storage::strategy::{Page, Strategy};
use vstd::prelude::*;

verus! {

/// A scheduled expiry: the time (nanoseconds since the epoch) and the key.
pub type Item = (int, Seq<u8>);

/// `i` is the first position holding the earliest time.
pub open spec fn is_first_min(items: Seq<Item>, i: int) -> bool {
    &&& 0 <= i < items.len()
    &&& forall|j: int| 0 <= j < items.len() ==> items[i].0 <= #[trigger] items[j].0
    &&& forall|j: int| 0 <= j < i ==> #[trigger] items[j].0 > items[i].0
}

/// The first position holding the earliest time.
pub open spec fn first_min(items: Seq<Item>) -> int {
    choose|i: int| is_first_min(items, i)
}

/// The item's key still holds a page, and that page has expired at `now` or
/// is the very page the item was scheduled for.
pub open spec fn still_due(contents: Map<Seq<u8>, PageView>, item: Item, now: i128) -> bool {
    &&& contents.contains_key(item.1)
    &&& (expired(contents[item.1], now) || expiry(contents[item.1]) == Some(item.0))
}

/// Eviction: take the earliest scheduled items one after the other, dropping
/// those that are no longer due, until one is due; its key is the victim.
/// Returns the victim and the schedule that is left.
pub open spec fn ttl_evict(items: Seq<Item>, contents: Map<Seq<u8>, PageView>, now: i128) -> (
    Option<Seq<u8>>,
    Seq<Item>,
)
    decreases items.len(),
{
    if items.len() == 0 {
        (None, items)
    } else {
        let i = first_min(items);
        if 0 <= i < items.len() {
            if still_due(contents, items[i], now) {
                (Some(items[i].1), items.remove(i))
            } else {
                ttl_evict(items.remove(i), contents, now)
            }
        } else {
            (None, items)
        }
    }
}

/// Eviction never grows the schedule, and shrinks it when it finds a victim.
pub proof fn lemma_ttl_evict_shrinks(items: Seq<Item>, contents: Map<Seq<u8>, PageView>, now: i128)
    ensures
        ttl_evict(items, contents, now).1.len() <= items.len(),
        ttl_evict(items, contents, now).0 is Some ==> ttl_evict(items, contents, now).1.len()
            < items.len(),
        ttl_evict(items, contents, now).0 matches Some(k) ==> contents.contains_key(k),
        ttl_evict(items, contents, now).0 is None ==> ttl_evict(items, contents, now).1.len() == 0,
    decreases items.len(),
{
    if items.len() > 0 {
        lemma_first_min_exists(items);
        let i = first_min(items);
        if 0 <= i < items.len() {
            if !still_due(contents, items[i], now) {
                lemma_ttl_evict_shrinks(items.remove(i), contents, now);
            }
        }
    }
}

/// A nonempty schedule has a first earliest item.
pub proof fn lemma_first_min_exists(items: Seq<Item>)
    requires
        items.len() > 0,
    ensures
        is_first_min(items, first_min(items)),
{
    let w = witness_first_min(items);
    lemma_first_min(items, w);
}

proof fn witness_first_min(items: Seq<Item>) -> (i: int)
    requires
        items.len() > 0,
    ensures
        is_first_min(items, i),
    decreases items.len(),
{
    if items.len() == 1 {
        0
    } else {
        let d = items.drop_last();
        let j = witness_first_min(d);
        let last = items.len() - 1;
        assert(forall|t: int| 0 <= t < d.len() ==> d[t] == items[t]);
        if items[last].0 < items[j].0 {
            assert forall|t: int| 0 <= t < last implies #[trigger] items[t].0 > items[last].0 by {
                assert(d[j].0 <= d[t].0);
            }
            last
        } else {
            assert forall|t: int| 0 <= t < items.len() implies items[j].0 <= #[trigger] items[t].0 by {
                if t < last {
                    assert(d[j].0 <= d[t].0);
                }
            }
            assert forall|t: int| 0 <= t < j implies #[trigger] items[t].0 > items[j].0 by {
                assert(d[t].0 > d[j].0);
            }
            j
        }
    }
}

pub proof fn lemma_first_min(items: Seq<Item>, i: int)
    requires
        is_first_min(items, i),
    ensures
        first_min(items) == i,
{
    let c = first_min(items);
    assert(is_first_min(items, c));
    if c < i {
        assert(items[c].0 > items[i].0);
    } else if i < c {
        assert(items[i].0 > items[c].0);
    }
}

/// Every stored page with a time to live, whose key is not in `unscheduled`,
/// has its expiry time scheduled.
pub open spec fn all_scheduled(
    items: Seq<Item>,
    contents: Map<Seq<u8>, PageView>,
    unscheduled: Set<Seq<u8>>,
) -> bool {
    forall|k: Seq<u8>|
        #[trigger] contents.contains_key(k) && contents[k].ttl is Some && !unscheduled.contains(k)
            ==> items.contains((expiry(contents[k])->Some_0, k))
}

/// A page has a time to live.
pub open spec fn has_ttl_page(contents: Map<Seq<u8>, PageView>, k: Seq<u8>) -> bool {
    contents.contains_key(k) && contents[k].ttl is Some
}

/// What eviction picks, when every stored page with a time to live outside
/// `unscheduled` is scheduled: nothing only when every such page is in
/// `unscheduled`; otherwise a key stored with a time to live whose page has
/// expired or expires no later than any scheduled page; and afterwards all
/// such pages but the victim are still scheduled.
pub proof fn lemma_ttl_evict_law(
    items: Seq<Item>,
    contents: Map<Seq<u8>, PageView>,
    unscheduled: Set<Seq<u8>>,
    now: i128,
)
    requires
        all_scheduled(items, contents, unscheduled),
    ensures
        ({
            let (victim, rest) = ttl_evict(items, contents, now);
            &&& victim is None ==> forall|k: Seq<u8>|
                #[trigger] has_ttl_page(contents, k) ==> unscheduled.contains(k)
            &&& (forall|k: Seq<u8>| !#[trigger] has_ttl_page(contents, k)) ==> victim is None
            &&& victim matches Some(v) ==> {
                &&& has_ttl_page(contents, v)
                &&& (expired(contents[v], now) || forall|k: Seq<u8>|
                    #[trigger] has_ttl_page(contents, k) && !unscheduled.contains(k) ==> expiry(
                        contents[v],
                    )->Some_0 <= expiry(contents[k])->Some_0)
            }
            &&& all_scheduled(
                rest,
                contents,
                match victim {
                    Some(v) => unscheduled.insert(v),
                    None => unscheduled,
                },
            )
        }),
    decreases items.len(),
{
    if items.len() == 0 {
        assert forall|k: Seq<u8>| #[trigger] has_ttl_page(contents, k) implies unscheduled.contains(
            k,
        ) by {
            if !unscheduled.contains(k) {
                assert(items.contains((expiry(contents[k])->Some_0, k)));
            }
        }
    } else {
        lemma_first_min_exists(items);
        let i = first_min(items);
        let rest = items.remove(i);
        items.remove_ensures(i);
        let item = items[i];
        if still_due(contents, item, now) {
            let v = item.1;
            assert(has_ttl_page(contents, v));
            if !expired(contents[v], now) {
                assert forall|k: Seq<u8>|
                    #[trigger] has_ttl_page(contents, k) && !unscheduled.contains(k) implies expiry(
                    contents[v],
                )->Some_0 <= expiry(contents[k])->Some_0 by {
                    assert(items.contains((expiry(contents[k])->Some_0, k)));
                    let j = choose|j: int|
                        0 <= j < items.len() && items[j] == (expiry(contents[k])->Some_0, k);
                    assert(items[i].0 <= items[j].0);
                }
            }
            assert forall|k: Seq<u8>|
                #[trigger] contents.contains_key(k) && contents[k].ttl is Some
                    && !unscheduled.insert(v).contains(k) implies rest.contains(
                (expiry(contents[k])->Some_0, k),
            ) by {
                assert(items.contains((expiry(contents[k])->Some_0, k)));
                let j = choose|j: int|
                    0 <= j < items.len() && items[j] == (expiry(contents[k])->Some_0, k);
                assert(j != i);
                if j < i {
                    assert(rest[j] == items[j]);
                } else {
                    assert(rest[j - 1] == items[j]);
                }
            }
        } else {
            assert forall|k: Seq<u8>|
                #[trigger] contents.contains_key(k) && contents[k].ttl is Some
                    && !unscheduled.contains(k) implies rest.contains(
                (expiry(contents[k])->Some_0, k),
            ) by {
                assert(items.contains((expiry(contents[k])->Some_0, k)));
                let j = choose|j: int|
                    0 <= j < items.len() && items[j] == (expiry(contents[k])->Some_0, k);
                if j == i {
                    assert(still_due(contents, item, now));
                }
                if j < i {
                    assert(rest[j] == items[j]);
                } else {
                    assert(rest[j - 1] == items[j]);
                }
            }
            lemma_ttl_evict_law(rest, contents, unscheduled, now);
        }
    }
}

/// A page table plus a schedule of expiry times.
pub struct TimeToLive {
    table: PageTable,
    queue: Vec<(i128, Key)>,
    unscheduled: Ghost<Set<Seq<u8>>>,
}

impl TimeToLive {
    /// The schedule: one item per page stored with a time to live, in the
    /// order of storing; items of pages since replaced or removed may remain.
    pub closed spec fn items(&self) -> Seq<Item> {
        self.queue@.map_values(|x: (i128, Key)| (x.0 as int, x.1@))
    }

    /// Keys handed out by `evict` and neither stored nor removed since: their
    /// pages may have left the schedule.
    pub closed spec fn unscheduled(&self) -> Set<Seq<u8>> {
        self.unscheduled@
    }

    /// Every stored page with a time to live is scheduled at its expiry time,
    /// unless its key was handed out by `evict` since it was stored.
    pub proof fn lemma_scheduled(&self)
        requires
            self.wf(),
        ensures
            all_scheduled(self.items(), as_map(self.rows()), self.unscheduled()),
    {
    }

    fn first_min_index(&self) -> (i: usize)
        requires
            self.queue@.len() > 0,
        ensures
            is_first_min(self.items(), i as int),
    {
        let n = self.queue.len();
        let mut best: usize = 0;
        let mut j: usize = 1;
        while j < n
            invariant
                n == self.items().len(),
                0 <= best < j <= n,
                forall|t: int| 0 <= t < j ==> self.items()[best as int].0 <= #[trigger] self.items()[t].0,
                forall|t: int| 0 <= t < best ==> #[trigger] self.items()[t].0 > self.items()[best as int].0,
            decreases n - j,
        {
            if self.queue[j].0 < self.queue[best].0 {
                best = j;
            }
            j = j + 1;
        }
        best
    }
}

impl Strategy for TimeToLive {
    closed spec fn rows(&self) -> Seq<Row> {
        self.table@
    }

    closed spec fn wf(&self) -> bool {
        &&& self.table.wf()
        &&& all_scheduled(self.items(), as_map(self.table@), self.unscheduled@)
    }

    fn new() -> (s: Self)
        ensures
            s.items() == Seq::<Item>::empty(),
            s.unscheduled() == Set::<Seq<u8>>::empty(),
    {
        let s = TimeToLive {
            table: PageTable::new(),
            queue: Vec::new(),
            unscheduled: Ghost(Set::empty()),
        };
        assert(s.items() =~= Seq::<Item>::empty());
        s
    }

    /// Reading leaves the schedule as it is.
    fn get(&mut self, key: &Key) -> (r: Option<Page>)
        ensures
            final(self).items() == old(self).items(),
            final(self).unscheduled() == old(self).unscheduled(),
    {
        match self.table.get(key) {
            Some(p) => Some(p.duplicate()),
            None => None,
        }
    }

    /// A page with a time to live is scheduled at its expiry time.
    fn allocate(&mut self, key: Key, page: Page) -> (r: Option<Page>)
        ensures
            final(self).items() == match expiry(page@) {
                Some(e) => old(self).items().push((e, key@)),
                None => old(self).items(),
            },
            final(self).unscheduled() == old(self).unscheduled().remove(key@),
    {
        let ghost kv = key@;
        let ghost pv = page@;
        let ghost before = self.items();
        let ghost old_contents = as_map(self.table@);
        let ghost u = self.unscheduled@;
        match page.expired_at() {
            Some(ex) => {
                let k = key.duplicate();
                self.queue.push((ex, k));
                assert(self.items() =~= before.push((ex as int, key@)));
            },
            None => {},
        }
        self.unscheduled = Ghost(u.remove(kv));
        let r = self.table.insert(key, page);
        proof {
            let c = as_map(self.table@);
            assert forall|k: Seq<u8>|
                #[trigger] c.contains_key(k) && c[k].ttl is Some && !self.unscheduled@.contains(k)
                    implies self.items().contains((expiry(c[k])->Some_0, k)) by {
                if k == kv {
                    let n = before.len() as int;
                    assert(self.items()[n] == (expiry(pv)->Some_0, kv));
                } else {
                    assert(old_contents.contains_key(k));
                    assert(before.contains((expiry(old_contents[k])->Some_0, k)));
                    let j = choose|j: int|
                        0 <= j < before.len() && before[j] == (expiry(old_contents[k])->Some_0, k);
                    assert(self.items()[j] == before[j]);
                }
            }
        }
        r
    }

    /// The schedule is left as it is.
    fn deallocate(&mut self, key: &Key) -> (r: Option<Page>)
        ensures
            final(self).items() == old(self).items(),
            final(self).unscheduled() == old(self).unscheduled().remove(key@),
    {
        let ghost u = self.unscheduled@;
        let ghost old_contents = as_map(self.table@);
        self.unscheduled = Ghost(u.remove(key@));
        let r = self.table.remove(key);
        proof {
            let c = as_map(self.table@);
            assert forall|k: Seq<u8>|
                #[trigger] c.contains_key(k) && c[k].ttl is Some && !self.unscheduled@.contains(k)
                    implies self.items().contains((expiry(c[k])->Some_0, k)) by {
                assert(old_contents.contains_key(k));
            }
        }
        r
    }

    /// Walks the schedule in order of expiry, as `ttl_evict` states.
    fn evict(&mut self, now: i128) -> (r: Option<Key>)
        ensures
            final(self).items() == ttl_evict(old(self).items(), as_map(old(self).rows()), now).1,
            match r {
                Some(k) => ttl_evict(old(self).items(), as_map(old(self).rows()), now).0 == Some(
                    k@,
                ),
                None => ttl_evict(old(self).items(), as_map(old(self).rows()), now).0 is None,
            },
            final(self).unscheduled() == match r {
                Some(k) => old(self).unscheduled().insert(k@),
                None => old(self).unscheduled(),
            },
            r is None ==> forall|k: Seq<u8>|
                #[trigger] has_ttl_page(as_map(old(self).rows()), k) ==> old(
                    self,
                ).unscheduled().contains(k),
            (forall|k: Seq<u8>| !#[trigger] has_ttl_page(as_map(old(self).rows()), k)) ==> r is None,
            r matches Some(k) ==> {
                let c = as_map(old(self).rows());
                &&& has_ttl_page(c, k@)
                &&& (expired(c[k@], now) || forall|k2: Seq<u8>|
                    #[trigger] has_ttl_page(c, k2) && !old(self).unscheduled().contains(k2)
                        ==> expiry(c[k@])->Some_0 <= expiry(c[k2])->Some_0)
            },
    {
        let ghost rows = self.table@;
        let ghost contents = as_map(rows);
        let ghost start = self.items();
        let ghost u = self.unscheduled@;
        proof {
            lemma_ttl_evict_law(start, contents, u, now);
        }
        while self.queue.len() > 0
            invariant
                self.table.wf(),
                self.table@ == rows,
                rows == old(self).rows(),
                start == old(self).items(),
                contents == as_map(rows),
                ttl_evict(start, contents, now) == ttl_evict(self.items(), contents, now),
                self.unscheduled@ == u,
                u == old(self).unscheduled(),
                all_scheduled(start, contents, u),
                all_scheduled(
                    ttl_evict(start, contents, now).1,
                    contents,
                    match ttl_evict(start, contents, now).0 {
                        Some(v) => u.insert(v),
                        None => u,
                    },
                ),
            decreases self.queue@.len(),
        {
            let i = self.first_min_index();
            let ghost items = self.items();
            proof {
                lemma_first_min(items, i as int);
            }
            let (e, k) = self.queue.remove(i);
            assert(self.items() =~= items.remove(i as int));
            proof {
                lemma_map_lookup(rows, k@);
                lemma_ttl_evict_law(start, contents, u, now);
            }
            match self.table.get(&k) {
                Some(p) => {
                    if p.is_expired_at(now) {
                        self.unscheduled = Ghost(u.insert(k@));
                        return Some(k);
                    }
                    match p.expired_at() {
                        Some(ex) => {
                            if ex == e {
                                self.unscheduled = Ghost(u.insert(k@));
                                return Some(k);
                            }
                        },
                        None => {},
                    }
                },
                None => {},
            }
        }
        assert(self.items() =~= Seq::<Item>::empty());
        None
    }

    proof fn lemma_distinct(&self) {
    }

    fn table(&self) -> (t: &PageTable) {
        &self.table
    }
}

} // verus!
