//! The mathematical model of a page table: an ordered sequence of
//! `(key bytes, page)` pairs with pairwise distinct keys, read as a map.

use vstd::prelude::*;

verus! {

/// What a page holds: its bytes, its time to live in milliseconds, and the
/// clock reading at which it was made, in nanoseconds since the Unix epoch
/// (negative before it).
pub struct PageView {
    pub value: Seq<u8>,
    pub ttl: Option<u64>,
    pub created_at: i128,
}

/// One row of the table: a key and its page.
pub type Row = (Seq<u8>, PageView);

/// The keys of the rows, in row order.
pub open spec fn keys_of(rows: Seq<Row>) -> Seq<Seq<u8>> {
    rows.map_values(|r: Row| r.0)
}

/// No key occurs in two rows.
pub open spec fn distinct_keys(rows: Seq<Row>) -> bool {
    forall|i: int, j: int|
        0 <= i < rows.len() && 0 <= j < rows.len() && i != j ==> #[trigger] rows[i].0
            != #[trigger] rows[j].0
}

/// Some row holds `key`.
pub open spec fn has_key(rows: Seq<Row>, key: Seq<u8>) -> bool {
    exists|i: int| 0 <= i < rows.len() && #[trigger] rows[i].0 == key
}

/// The page stored under `key`, if any.
pub open spec fn lookup(rows: Seq<Row>, key: Seq<u8>) -> Option<PageView> {
    if has_key(rows, key) {
        Some(rows[choose|i: int| 0 <= i < rows.len() && #[trigger] rows[i].0 == key].1)
    } else {
        None
    }
}

/// The rows read as a map from key bytes to pages.
pub open spec fn as_map(rows: Seq<Row>) -> Map<Seq<u8>, PageView> {
    Map::new(|k: Seq<u8>| has_key(rows, k), |k: Seq<u8>| lookup(rows, k).unwrap())
}

/// Total number of value bytes held by the rows.
pub open spec fn total_size(rows: Seq<Row>) -> nat
    decreases rows.len(),
{
    if rows.len() == 0 {
        0
    } else {
        total_size(rows.drop_last()) + rows.last().1.value.len()
    }
}

/// Nanoseconds in `ms` milliseconds.
pub open spec fn millis_to_nanos(ms: u64) -> int {
    ms * 1_000_000
}

/// The point in time (nanoseconds since the epoch) at which a page expires:
/// its creation time plus its time to live.
pub open spec fn expiry(p: PageView) -> Option<int> {
    match p.ttl {
        Some(t) => Some(p.created_at + millis_to_nanos(t)),
        None => None,
    }
}

/// A page made at `now` with time to live `ttl` has an expiry time that the
/// clock's integer type can hold.
pub open spec fn expiry_fits(ttl: Option<u64>, now: i128) -> bool {
    match ttl {
        Some(t) => now + millis_to_nanos(t) <= i128::MAX,
        None => true,
    }
}

/// A page is expired at `now` once its expiry time is not after `now`.
pub open spec fn expired(p: PageView, now: i128) -> bool {
    match expiry(p) {
        Some(e) => e <= now,
        None => false,
    }
}

pub proof fn lemma_lookup_at(rows: Seq<Row>, i: int)
    requires
        distinct_keys(rows),
        0 <= i < rows.len(),
    ensures
        has_key(rows, rows[i].0),
        lookup(rows, rows[i].0) == Some(rows[i].1),
        as_map(rows).contains_key(rows[i].0),
        as_map(rows)[rows[i].0] == rows[i].1,
{
    assert(has_key(rows, rows[i].0));
    let j = choose|j: int| 0 <= j < rows.len() && #[trigger] rows[j].0 == rows[i].0;
    assert(j == i);
}

pub proof fn lemma_map_lookup(rows: Seq<Row>, k: Seq<u8>)
    ensures
        as_map(rows).contains_key(k) <==> lookup(rows, k) is Some,
        lookup(rows, k) is Some ==> as_map(rows)[k] == lookup(rows, k).unwrap(),
{
}

/// Appending a row with a new key adds one entry to the map.
pub proof fn lemma_push(rows: Seq<Row>, r: Row)
    requires
        distinct_keys(rows),
        !has_key(rows, r.0),
    ensures
        distinct_keys(rows.push(r)),
        as_map(rows.push(r)) == as_map(rows).insert(r.0, r.1),
        total_size(rows.push(r)) == total_size(rows) + r.1.value.len(),
{
    let t = rows.push(r);
    assert(t.drop_last() =~= rows);
    assert forall|k: Seq<u8>| #[trigger] has_key(t, k) == (has_key(rows, k) || k == r.0) by {
        if has_key(rows, k) {
            let i = choose|i: int| 0 <= i < rows.len() && #[trigger] rows[i].0 == k;
            assert(t[i].0 == k);
        }
        if k == r.0 {
            assert(t[rows.len() as int].0 == k);
        }
        if has_key(t, k) {
            let i = choose|i: int| 0 <= i < t.len() && #[trigger] t[i].0 == k;
            if i < rows.len() {
                assert(rows[i].0 == k);
            }
        }
    }
    assert(distinct_keys(t)) by {
        assert forall|i: int, j: int|
            0 <= i < t.len() && 0 <= j < t.len() && i != j implies #[trigger] t[i].0
            != #[trigger] t[j].0 by {
            if i < rows.len() && j < rows.len() {
                assert(rows[i].0 != rows[j].0);
            } else if i < rows.len() {
                assert(rows[i].0 == t[i].0);
            } else {
                assert(rows[j].0 == t[j].0);
            }
        }
    }
    assert forall|k: Seq<u8>| #[trigger] as_map(t).contains_key(k) implies as_map(t)[k] == as_map(
        rows,
    ).insert(r.0, r.1)[k] by {
        let i = choose|i: int| 0 <= i < t.len() && #[trigger] t[i].0 == k;
        lemma_lookup_at(t, i);
        if i < rows.len() {
            assert(rows[i] == t[i]);
            lemma_lookup_at(rows, i);
        }
    }
    assert(as_map(t) =~= as_map(rows).insert(r.0, r.1));
}

/// Replacing the page of row `i` changes one entry of the map.
pub proof fn lemma_update(rows: Seq<Row>, i: int, p: PageView)
    requires
        distinct_keys(rows),
        0 <= i < rows.len(),
    ensures
        distinct_keys(rows.update(i, (rows[i].0, p))),
        as_map(rows.update(i, (rows[i].0, p))) == as_map(rows).insert(rows[i].0, p),
        total_size(rows.update(i, (rows[i].0, p))) == total_size(rows) - rows[i].1.value.len()
            + p.value.len(),
        keys_of(rows.update(i, (rows[i].0, p))) == keys_of(rows),
{
    let t = rows.update(i, (rows[i].0, p));
    assert forall|k: Seq<u8>| #[trigger] has_key(t, k) == has_key(rows, k) by {
        if has_key(rows, k) {
            let j = choose|j: int| 0 <= j < rows.len() && #[trigger] rows[j].0 == k;
            assert(t[j].0 == k);
        }
        if has_key(t, k) {
            let j = choose|j: int| 0 <= j < t.len() && #[trigger] t[j].0 == k;
            assert(rows[j].0 == k);
        }
    }
    assert(distinct_keys(t)) by {
        assert forall|a: int, b: int|
            0 <= a < t.len() && 0 <= b < t.len() && a != b implies #[trigger] t[a].0
            != #[trigger] t[b].0 by {
            assert(rows[a].0 != rows[b].0);
        }
    }
    assert forall|k: Seq<u8>| #[trigger] as_map(t).contains_key(k) implies as_map(t)[k] == as_map(
        rows,
    ).insert(rows[i].0, p)[k] by {
        let j = choose|j: int| 0 <= j < t.len() && #[trigger] t[j].0 == k;
        lemma_lookup_at(t, j);
        if j != i {
            lemma_lookup_at(rows, j);
        }
    }
    assert(as_map(t) =~= as_map(rows).insert(rows[i].0, p));
    lemma_total_update(rows, i, (rows[i].0, p));
    assert(keys_of(t) =~= keys_of(rows));
}

/// Removing row `i` removes its key from the map.
pub proof fn lemma_remove(rows: Seq<Row>, i: int)
    requires
        distinct_keys(rows),
        0 <= i < rows.len(),
    ensures
        distinct_keys(rows.remove(i)),
        as_map(rows.remove(i)) == as_map(rows).remove(rows[i].0),
        total_size(rows.remove(i)) == total_size(rows) - rows[i].1.value.len(),
        total_size(rows) >= rows[i].1.value.len(),
{
    let t = rows.remove(i);
    rows.remove_ensures(i);
    assert forall|k: Seq<u8>| #[trigger] has_key(t, k) == (has_key(rows, k) && k != rows[i].0) by {
        if has_key(rows, k) && k != rows[i].0 {
            let j = choose|j: int| 0 <= j < rows.len() && #[trigger] rows[j].0 == k;
            if j < i {
                assert(t[j].0 == k);
            } else {
                assert(t[j - 1].0 == k);
            }
        }
        if has_key(t, k) {
            let j = choose|j: int| 0 <= j < t.len() && #[trigger] t[j].0 == k;
            if j < i {
                assert(rows[j].0 == k);
                assert(rows[j].0 != rows[i].0);
            } else {
                assert(rows[j + 1].0 == k);
                assert(rows[j + 1].0 != rows[i].0);
            }
        }
    }
    assert(distinct_keys(t)) by {
        assert forall|a: int, b: int|
            0 <= a < t.len() && 0 <= b < t.len() && a != b implies #[trigger] t[a].0
            != #[trigger] t[b].0 by {
            let a2 = if a < i { a } else { a + 1 };
            let b2 = if b < i { b } else { b + 1 };
            assert(t[a] == rows[a2]);
            assert(t[b] == rows[b2]);
            assert(rows[a2].0 != rows[b2].0);
        }
    }
    assert forall|k: Seq<u8>| #[trigger] as_map(t).contains_key(k) implies as_map(t)[k] == as_map(
        rows,
    ).remove(rows[i].0)[k] by {
        let j = choose|j: int| 0 <= j < t.len() && #[trigger] t[j].0 == k;
        lemma_lookup_at(t, j);
        let j2 = if j < i { j } else { j + 1 };
        assert(t[j] == rows[j2]);
        lemma_lookup_at(rows, j2);
    }
    assert(as_map(t) =~= as_map(rows).remove(rows[i].0));
    lemma_total_remove(rows, i);
}

/// Rows with distinct keys hold as many bytes as the map they stand for:
/// two such row sequences that read as the same map have the same total.
pub proof fn lemma_total_size_map(a: Seq<Row>, b: Seq<Row>)
    requires
        distinct_keys(a),
        distinct_keys(b),
        as_map(a) == as_map(b),
    ensures
        total_size(a) == total_size(b),
    decreases a.len(),
{
    if a.len() == 0 {
        if b.len() > 0 {
            lemma_lookup_at(b, 0);
            assert(as_map(a).contains_key(b[0].0));
        }
    } else {
        let n = a.len() - 1;
        let k = a[n].0;
        lemma_lookup_at(a, n);
        assert(has_key(b, k));
        let j = choose|j: int| 0 <= j < b.len() && #[trigger] b[j].0 == k;
        lemma_lookup_at(b, j);
        lemma_remove(a, n);
        lemma_remove(b, j);
        lemma_total_size_map(a.remove(n), b.remove(j));
    }
}

/// The elements among the first `n + 1` of `s` are those among the first `n`
/// and element `n`.
pub proof fn lemma_take_one_more<A>(s: Seq<A>, n: int)
    requires
        0 <= n < s.len(),
    ensures
        s.take(n + 1).to_set() == s.take(n).to_set().insert(s[n]),
{
    let t1 = s.take(n + 1);
    let t0 = s.take(n);
    assert forall|x: A| t1.to_set().contains(x) <==> t0.to_set().insert(s[n]).contains(x) by {
        if t1.contains(x) {
            let i = choose|i: int| 0 <= i < t1.len() && t1[i] == x;
            if i < n {
                assert(t0[i] == x);
            }
        }
        if t0.contains(x) {
            let i = choose|i: int| 0 <= i < t0.len() && t0[i] == x;
            assert(t1[i] == x);
        }
        if x == s[n] {
            assert(t1[n] == x);
        }
    }
    assert(t1.to_set() =~= t0.to_set().insert(s[n]));
}

pub proof fn lemma_total_update(rows: Seq<Row>, i: int, r: Row)
    requires
        0 <= i < rows.len(),
    ensures
        total_size(rows.update(i, r)) == total_size(rows) - rows[i].1.value.len()
            + r.1.value.len(),
        total_size(rows) >= rows[i].1.value.len(),
    decreases rows.len(),
{
    let t = rows.update(i, r);
    if i == rows.len() - 1 {
        assert(t.drop_last() =~= rows.drop_last());
    } else {
        assert(t.drop_last() =~= rows.drop_last().update(i, r));
        lemma_total_update(rows.drop_last(), i, r);
    }
}

pub proof fn lemma_total_remove(rows: Seq<Row>, i: int)
    requires
        0 <= i < rows.len(),
    ensures
        total_size(rows.remove(i)) == total_size(rows) - rows[i].1.value.len(),
        total_size(rows) >= rows[i].1.value.len(),
    decreases rows.len(),
{
    let t = rows.remove(i);
    if i == rows.len() - 1 {
        assert(t =~= rows.drop_last());
    } else {
        assert(t.drop_last() =~= rows.drop_last().remove(i));
        assert(t.last() == rows.last());
        lemma_total_remove(rows.drop_last(), i);
    }
}

} // verus!

verus! {

/// The predicate "has a time to live".
pub open spec fn has_ttl() -> spec_fn(Row) -> bool {
    |r: Row| r.1.ttl is Some
}

/// The predicate "has expired at `now`".
pub open spec fn expired_row(now: i128) -> spec_fn(Row) -> bool {
    |r: Row| expired(r.1, now)
}

/// The rows that have a time to live, in order.
pub open spec fn with_ttl(rows: Seq<Row>) -> Seq<Row> {
    rows.filter(has_ttl())
}

/// Up to 20 consecutive items of `c`, starting at position `offset` (none
/// when `offset` is past the end).
pub open spec fn window(c: Seq<Row>, offset: int) -> Seq<Row> {
    let lo = if offset < c.len() { offset } else { c.len() as int };
    let hi = if offset + 20 < c.len() { offset + 20 } else { c.len() as int };
    c.subrange(lo, hi)
}

/// The pages a sweep at position `offset` removes: of the rows with a time to
/// live, the window at `offset`, those expired at `now`.
pub open spec fn sweep_victims(rows: Seq<Row>, offset: int, now: i128) -> Seq<Row> {
    window(with_ttl(rows), offset).filter(expired_row(now))
}

pub proof fn lemma_with_ttl_push(s: Seq<Row>, r: Row)
    ensures
        with_ttl(s.push(r)) == if r.1.ttl is Some {
            with_ttl(s).push(r)
        } else {
            with_ttl(s)
        },
{
    reveal(Seq::filter);
    assert(s.push(r).drop_last() =~= s);
    assert(s.push(r).last() == r);
}

pub proof fn lemma_filter_push(s: Seq<Row>, r: Row, p: spec_fn(Row) -> bool)
    ensures
        s.push(r).filter(p) == if p(r) {
            s.filter(p).push(r)
        } else {
            s.filter(p)
        },
{
    reveal(Seq::filter);
    assert(s.push(r).drop_last() =~= s);
    assert(s.push(r).last() == r);
}

pub proof fn lemma_window_push(c: Seq<Row>, r: Row, offset: int)
    requires
        offset >= 0,
    ensures
        window(c.push(r), offset) == if offset <= c.len() < offset + 20 {
            window(c, offset).push(r)
        } else {
            window(c, offset)
        },
{
    let d = c.push(r);
    if offset <= c.len() < offset + 20 {
        assert(window(d, offset) =~= window(c, offset).push(r));
    } else {
        assert(window(d, offset) =~= window(c, offset));
    }
}

} // verus!
