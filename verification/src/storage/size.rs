//! Byte-size helpers: each unit is 1024 times the one before it.

use vstd::prelude::*;

verus! {

/// Number of bytes in one kibibyte.
pub open spec fn kib() -> int {
    1024
}

/// `b` bytes.
pub fn byte(b: usize) -> (r: usize)
    ensures
        r == b,
{
    b
}

/// `b` kibibytes, in bytes.
pub fn kb(b: usize) -> (r: usize)
    requires
        b * kib() <= usize::MAX,
    ensures
        r == b * kib(),
{
    1024 * byte(b)
}

/// `b` mebibytes, in bytes.
pub fn mb(b: usize) -> (r: usize)
    requires
        b * (kib() * kib()) <= usize::MAX,
    ensures
        r == b * (kib() * kib()),
{
    assert(b * kib() <= b * (kib() * kib())) by (nonlinear_arith);
    let k = kb(b);
    assert(1024 * (b * kib()) == b * (kib() * kib())) by (nonlinear_arith);
    1024 * k
}

/// `b` gibibytes, in bytes.
pub fn gb(b: usize) -> (r: usize)
    requires
        b * (kib() * kib() * kib()) <= usize::MAX,
    ensures
        r == b * (kib() * kib() * kib()),
{
    assert(b * (kib() * kib()) <= b * (kib() * kib() * kib())) by (nonlinear_arith);
    let m = mb(b);
    assert(1024 * (b * (kib() * kib())) == b * (kib() * kib() * kib())) by (nonlinear_arith);
    1024 * m
}

/// `b` tebibytes, in bytes.
pub fn tb(b: usize) -> (r: usize)
    requires
        b * (kib() * kib() * kib() * kib()) <= usize::MAX,
    ensures
        r == b * (kib() * kib() * kib() * kib()),
{
    assert(b * (kib() * kib() * kib()) <= b * (kib() * kib() * kib() * kib())) by (nonlinear_arith);
    let g = gb(b);
    assert(1024 * (b * (kib() * kib() * kib())) == b * (kib() * kib() * kib() * kib()))
        by (nonlinear_arith);
    1024 * g
}

/// `b` pebibytes, in bytes.
pub fn pb(b: usize) -> (r: usize)
    requires
        b * (kib() * kib() * kib() * kib() * kib()) <= usize::MAX,
    ensures
        r == b * (kib() * kib() * kib() * kib() * kib()),
{
    assert(b * (kib() * kib() * kib() * kib()) <= b * (kib() * kib() * kib() * kib() * kib()))
        by (nonlinear_arith);
    let t = tb(b);
    assert(1024 * (b * (kib() * kib() * kib() * kib())) == b * (kib() * kib() * kib() * kib()
        * kib())) by (nonlinear_arith);
    1024 * t
}

} // verus!
