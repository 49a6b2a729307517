//! Keys of the store: arbitrary byte strings.

use vstd::prelude::*;
use std::cmp::Ordering;
use vstd::std_specs::cmp::{PartialEqSpecImpl, PartialOrdSpecImpl};
use vstd::std_specs::convert::FromSpecImpl;
use vstd::utf8::{decode_utf8, valid_utf8};

verus! {

/// A key: the bytes a client sent.
#[derive(Debug, Hash)]
pub struct Key(Vec<u8>);

impl View for Key {
    type V = Seq<u8>;

    closed spec fn view(&self) -> Seq<u8> {
        self.0@
    }
}

/// What `String::from_utf8_lossy` makes of a byte string.
pub uninterp spec fn utf8_lossy(bytes: Seq<u8>) -> Seq<char>;

/// Decodes `bytes` as UTF-8 with `String::from_utf8_lossy`, each invalid
/// sequence turning into U+FFFD. Its documentation states that a valid UTF-8
/// input comes back unchanged; what it does with invalid input is only named.
#[verifier::external_body]
fn lossy_string(bytes: &[u8]) -> (s: String)
    ensures
        s@ == utf8_lossy(bytes@),
        valid_utf8(bytes@) ==> s@ == decode_utf8(bytes@),
{
    String::from_utf8_lossy(bytes).into_owned()
}

impl Key {
    /// Wraps the given bytes.
    pub fn new(bytes: Vec<u8>) -> (k: Key)
        ensures
            k@ == bytes@,
    {
        Key(bytes)
    }

    /// The key's bytes.
    pub fn as_bytes(&self) -> (b: &[u8])
        ensures
            b@ == self@,
    {
        self.0.as_slice()
    }

    /// Whether two keys hold the same bytes.
    pub fn same_as(&self, other: &Key) -> (b: bool)
        ensures
            b == (self@ == other@),
    {
        let n = self.0.len();
        if n != other.0.len() {
            return false;
        }
        let mut i: usize = 0;
        while i < n
            invariant
                n == self@.len() == other@.len(),
                0 <= i <= n,
                forall|j: int| 0 <= j < i ==> self@[j] == other@[j],
            decreases n - i,
        {
            if self.0[i] != other.0[i] {
                return false;
            }
            i = i + 1;
        }
        assert(self@ =~= other@);
        true
    }

    /// A second key with the same bytes.
    pub fn duplicate(&self) -> (k: Key)
        ensures
            k@ == self@,
    {
        Key(vstd::slice::slice_to_vec(self.0.as_slice()))
    }

    /// The key's bytes read as UTF-8, invalid sequences replaced by U+FFFD.
    pub fn to_string(&self) -> (s: String)
        ensures
            s@ == utf8_lossy(self@),
            valid_utf8(self@) ==> s@ == decode_utf8(self@),
    {
        lossy_string(self.0.as_slice())
    }
}

impl Clone for Key {
    fn clone(&self) -> (k: Self)
        ensures
            k@ == self@,
    {
        self.duplicate()
    }
}

impl PartialEq for Key {
    fn eq(&self, other: &Self) -> (b: bool) {
        self.same_as(other)
    }
}

impl Eq for Key {
}

impl PartialEqSpecImpl for Key {
    open spec fn obeys_eq_spec() -> bool {
        true
    }

    open spec fn eq_spec(&self, other: &Key) -> bool {
        self@ == other@
    }
}

/// Byte strings in lexicographic order: the first differing byte decides,
/// and a proper prefix comes first.
pub open spec fn byte_order(a: Seq<u8>, b: Seq<u8>) -> Ordering
    decreases a.len(),
{
    if a.len() == 0 {
        if b.len() == 0 {
            Ordering::Equal
        } else {
            Ordering::Less
        }
    } else if b.len() == 0 {
        Ordering::Greater
    } else if a[0] < b[0] {
        Ordering::Less
    } else if a[0] > b[0] {
        Ordering::Greater
    } else {
        byte_order(a.drop_first(), b.drop_first())
    }
}

/// `a` and `b` agree on their first `i` bytes.
pub open spec fn agree_upto(a: Seq<u8>, b: Seq<u8>, i: int) -> bool {
    forall|j: int| 0 <= j < i ==> a[j] == b[j]
}

/// A machine index as a mathematical one.
pub open spec fn index_of(i: usize) -> int {
    i as int
}

impl Key {
    /// The length of the longest common prefix of the two keys.
    fn common_prefix(&self, other: &Key) -> (i: usize)
        ensures
            i <= self@.len(),
            i <= other@.len(),
            agree_upto(self@, other@, i as int),
            i < self@.len() && i < other@.len() ==> self@[i as int] != other@[i as int],
    {
        let n = self.0.len();
        let m = other.0.len();
        let mut i: usize = 0;
        while i < n && i < m
            invariant
                n == self@.len(),
                m == other@.len(),
                0 <= i <= n,
                i <= m,
                agree_upto(self@, other@, i as int),
            decreases n - i,
        {
            if self.0[i] != other.0[i] {
                return i;
            }
            i = i + 1;
        }
        i
    }
}

pub proof fn lemma_byte_order_skip(a: Seq<u8>, b: Seq<u8>, i: int)
    requires
        0 <= i <= a.len(),
        i <= b.len(),
        agree_upto(a, b, i),
    ensures
        byte_order(a, b) == byte_order(a.skip(i), b.skip(i)),
    decreases i,
{
    if i > 0 {
        lemma_byte_order_skip(a, b, i - 1);
        let sa = a.skip(i - 1);
        let sb = b.skip(i - 1);
        assert(sa[0] == a[i - 1] && sb[0] == b[i - 1]);
        assert(sa.drop_first() =~= a.skip(i));
        assert(sb.drop_first() =~= b.skip(i));
    } else {
        assert(a.skip(0) =~= a);
        assert(b.skip(0) =~= b);
    }
}

impl PartialOrd for Key {
    fn partial_cmp(&self, other: &Self) -> (r: Option<Ordering>) {
        let i = self.common_prefix(other);
        proof {
            lemma_byte_order_skip(self@, other@, index_of(i));
        }
        let ghost sa = self@.skip(index_of(i));
        let ghost sb = other@.skip(index_of(i));
        if i < self.0.len() && i < other.0.len() {
            let a = self.0[i];
            let b = other.0[i];
            assert(sa[0] == a && sb[0] == b);
            if a < b {
                Some(Ordering::Less)
            } else {
                Some(Ordering::Greater)
            }
        } else if i == self.0.len() && i == other.0.len() {
            Some(Ordering::Equal)
        } else if i == self.0.len() {
            Some(Ordering::Less)
        } else {
            Some(Ordering::Greater)
        }
    }
}

impl PartialOrdSpecImpl for Key {
    open spec fn obeys_partial_cmp_spec() -> bool {
        true
    }

    open spec fn partial_cmp_spec(&self, other: &Key) -> Option<Ordering> {
        Some(byte_order(self@, other@))
    }
}

impl From<Vec<u8>> for Key {
    fn from(value: Vec<u8>) -> (k: Key)
        ensures
            k@ == value@,
    {
        Key(value)
    }
}

impl FromSpecImpl<Vec<u8>> for Key {
    open spec fn obeys_from_spec() -> bool {
        true
    }

    closed spec fn from_spec(v: Vec<u8>) -> Key {
        Key(v)
    }
}

} // verus!
