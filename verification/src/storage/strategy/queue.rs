//! An ordered queue of distinct keys, oldest first.

use crate::storage::key::Key;
use crate::storage::model::{as_map, has_key, Row};
use vstd::prelude::*;

verus! {

/// The predicate "is not `k`".
pub open spec fn other_than(k: Seq<u8>) -> spec_fn(Seq<u8>) -> bool {
    |x: Seq<u8>| x != k
}

/// `s` with `k` taken out, the rest in order.
pub open spec fn without(s: Seq<Seq<u8>>, k: Seq<u8>) -> Seq<Seq<u8>> {
    s.filter(other_than(k))
}

/// `s` with `k` moved (or added) to the back.
pub open spec fn to_back(s: Seq<Seq<u8>>, k: Seq<u8>) -> Seq<Seq<u8>> {
    without(s, k).push(k)
}

pub proof fn lemma_without_absent(s: Seq<Seq<u8>>, k: Seq<u8>)
    requires
        !s.contains(k),
    ensures
        without(s, k) == s,
    decreases s.len(),
{
    reveal(Seq::filter);
    if s.len() > 0 {
        assert(!s.drop_last().contains(k)) by {
            if s.drop_last().contains(k) {
                let j = choose|j: int| 0 <= j < s.drop_last().len() && s.drop_last()[j] == k;
                assert(s[j] == k);
            }
        }
        lemma_without_absent(s.drop_last(), k);
        assert(s.last() != k) by {
            assert(s[s.len() - 1] == s.last());
        }
        assert(other_than(k)(s.last()));
        assert(without(s, k) == without(s.drop_last(), k).push(s.last()));
        assert(s.drop_last().push(s.last()) =~= s);
    }
}

pub proof fn lemma_without_at(s: Seq<Seq<u8>>, i: int)
    requires
        s.no_duplicates(),
        0 <= i < s.len(),
    ensures
        without(s, s[i]) == s.remove(i),
    decreases s.len(),
{
    reveal(Seq::filter);
    let k = s[i];
    let d = s.drop_last();
    if i == s.len() - 1 {
        assert(!d.contains(k)) by {
            if d.contains(k) {
                let j = choose|j: int| 0 <= j < d.len() && d[j] == k;
                assert(s[j] == s[i]);
            }
        }
        lemma_without_absent(d, k);
        assert(!other_than(k)(s.last()));
        assert(without(s, k) == without(d, k));
        assert(s.remove(i) =~= d);
    } else {
        assert(d.no_duplicates()) by {
            assert forall|a: int, b: int|
                0 <= a < d.len() && 0 <= b < d.len() && a != b implies d[a] != d[b] by {
                assert(d[a] == s[a] && d[b] == s[b]);
            }
        }
        assert(d[i] == k);
        lemma_without_at(d, i);
        assert(s.last() != k) by {
            assert(s[s.len() - 1] == s.last());
        }
        assert(other_than(k)(s.last()));
        assert(without(s, k) == without(d, k).push(s.last()));
        assert(s.remove(i) =~= d.remove(i).push(s.last()));
    }
}

pub proof fn lemma_without_facts(s: Seq<Seq<u8>>, k: Seq<u8>)
    requires
        s.no_duplicates(),
    ensures
        without(s, k).no_duplicates(),
        forall|x: Seq<u8>| #[trigger] without(s, k).contains(x) <==> (s.contains(x) && x != k),
        s.contains(k) ==> without(s, k).len() + 1 == s.len(),
        !s.contains(k) ==> without(s, k) == s,
{
    if s.contains(k) {
        let i = choose|i: int| 0 <= i < s.len() && s[i] == k;
        lemma_without_at(s, i);
        let t = s.remove(i);
        s.remove_ensures(i);
        assert forall|a: int, b: int|
            0 <= a < t.len() && 0 <= b < t.len() && a != b implies t[a] != t[b] by {
            let a2 = if a < i { a } else { a + 1 };
            let b2 = if b < i { b } else { b + 1 };
            assert(t[a] == s[a2] && t[b] == s[b2]);
        }
        assert forall|x: Seq<u8>| #[trigger] t.contains(x) <==> (s.contains(x) && x != k) by {
            if t.contains(x) {
                let j = choose|j: int| 0 <= j < t.len() && t[j] == x;
                let j2 = if j < i { j } else { j + 1 };
                assert(s[j2] == x);
            }
            if s.contains(x) && x != k {
                let j = choose|j: int| 0 <= j < s.len() && s[j] == x;
                assert(j != i);
                if j < i {
                    assert(t[j] == x);
                } else {
                    assert(t[j - 1] == x);
                }
            }
        }
    } else {
        lemma_without_absent(s, k);
    }
}

pub proof fn lemma_to_back_facts(s: Seq<Seq<u8>>, k: Seq<u8>)
    requires
        s.no_duplicates(),
    ensures
        to_back(s, k).no_duplicates(),
        forall|x: Seq<u8>| #[trigger] to_back(s, k).contains(x) <==> (s.contains(x) || x == k),
{
    lemma_without_facts(s, k);
    let w = without(s, k);
    let t = w.push(k);
    assert forall|a: int, b: int|
        0 <= a < t.len() && 0 <= b < t.len() && a != b implies t[a] != t[b] by {
        if a < w.len() && b < w.len() {
            assert(t[a] == w[a] && t[b] == w[b]);
        } else if a < w.len() {
            assert(w.contains(t[a]));
        } else {
            assert(w.contains(t[b]));
        }
    }
    assert forall|x: Seq<u8>| #[trigger] t.contains(x) <==> (s.contains(x) || x == k) by {
        if t.contains(x) {
            let j = choose|j: int| 0 <= j < t.len() && t[j] == x;
            if j < w.len() {
                assert(w.contains(x));
            }
        }
        if x == k {
            assert(t[w.len() as int] == x);
        } else if s.contains(x) {
            assert(w.contains(x));
            let j = choose|j: int| 0 <= j < w.len() && w[j] == x;
            assert(t[j] == x);
        }
    }
}

/// Keys in order, each at most once.
pub struct KeyQueue {
    keys: Vec<Key>,
}

impl View for KeyQueue {
    type V = Seq<Seq<u8>>;

    closed spec fn view(&self) -> Seq<Seq<u8>> {
        self.keys@.map_values(|k: Key| k@)
    }
}

impl KeyQueue {
    /// An empty queue.
    pub fn new() -> (q: KeyQueue)
        ensures
            q@ == Seq::<Seq<u8>>::empty(),
    {
        let q = KeyQueue { keys: Vec::new() };
        assert(q@ =~= Seq::<Seq<u8>>::empty());
        q
    }

    /// The oldest key, if any.
    pub fn front(&self) -> (r: Option<&Key>)
        ensures
            match r {
                Some(k) => self@.len() > 0 && k@ == self@[0],
                None => self@.len() == 0,
            },
    {
        if self.keys.len() == 0 {
            None
        } else {
            Some(&self.keys[0])
        }
    }

    /// Takes `key` out of the queue, wherever it stands.
    pub fn remove_key(&mut self, key: &Key)
        requires
            old(self)@.no_duplicates(),
        ensures
            final(self)@ == without(old(self)@, key@),
    {
        let ghost before = self@;
        let n = self.keys.len();
        let mut i: usize = 0;
        while i < n
            invariant
                n == self@.len(),
                self@ == before,
                before.no_duplicates(),
                before == old(self)@,
                0 <= i <= n,
                forall|j: int| 0 <= j < i ==> self@[j] != key@,
            decreases n - i,
        {
            if self.keys[i].same_as(key) {
                proof {
                    lemma_without_at(before, i as int);
                }
                self.keys.remove(i);
                assert(self@ =~= before.remove(i as int));
                return;
            }
            i = i + 1;
        }
        proof {
            assert(!before.contains(key@)) by {
                if before.contains(key@) {
                    let j = choose|j: int| 0 <= j < before.len() && before[j] == key@;
                    assert(self@[j] != key@);
                }
            }
            lemma_without_absent(before, key@);
        }
    }

    /// Puts `key` at the back, taking out any earlier occurrence.
    pub fn move_to_back(&mut self, key: Key)
        requires
            old(self)@.no_duplicates(),
        ensures
            final(self)@ == to_back(old(self)@, key@),
    {
        self.remove_key(&key);
        let ghost mid = self@;
        self.keys.push(key);
        assert(self@ =~= mid.push(key@));
    }
}

} // verus!

verus! {

/// The queue lists exactly the keys of the rows, each once.
pub open spec fn queue_matches(order: Seq<Seq<u8>>, rows: Seq<Row>) -> bool {
    &&& order.no_duplicates()
    &&& forall|k: Seq<u8>| #[trigger] order.contains(k) <==> has_key(rows, k)
}

/// When the rows gain key `k`, moving `k` to the back keeps the order
/// listing exactly their keys.
pub proof fn lemma_matches_after_store(
    order: Seq<Seq<u8>>,
    before: Seq<Row>,
    after: Seq<Row>,
    k: Seq<u8>,
)
    requires
        queue_matches(order, before),
        as_map(after).dom() == as_map(before).dom().insert(k),
    ensures
        queue_matches(to_back(order, k), after),
{
    lemma_to_back_facts(order, k);
    assert forall|x: Seq<u8>| #[trigger] to_back(order, k).contains(x) <==> has_key(after, x) by {
        assert(as_map(after).dom().contains(x) == has_key(after, x));
        assert(as_map(before).dom().contains(x) == has_key(before, x));
    }
}

/// When the rows lose key `k`, taking `k` out keeps the order listing
/// exactly their keys.
pub proof fn lemma_matches_after_remove(
    order: Seq<Seq<u8>>,
    before: Seq<Row>,
    after: Seq<Row>,
    k: Seq<u8>,
)
    requires
        queue_matches(order, before),
        as_map(after).dom() == as_map(before).dom().remove(k),
    ensures
        queue_matches(without(order, k), after),
{
    lemma_without_facts(order, k);
    assert forall|x: Seq<u8>| #[trigger] without(order, k).contains(x) <==> has_key(after, x) by {
        assert(as_map(after).dom().contains(x) == has_key(after, x));
        assert(as_map(before).dom().contains(x) == has_key(before, x));
    }
}

} // verus!
