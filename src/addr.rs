//! Operator addresses and logical-time granulation.
use vstd::prelude::*;

verus! {

/// Timestamps of derived collections are rounded up to a multiple of this
/// many nanoseconds.
pub const PROGRAM_NS_GRANULARITY: u64 = 1_000_000;

/// `a` is an ancestor of `b`: a strict prefix of it.
pub open spec fn is_strict_prefix(a: Seq<usize>, b: Seq<usize>) -> bool {
    a.len() < b.len() && b.subrange(0, a.len() as int) == a
}

/// Whether the operator at address `a` is an ancestor of the one at `b`.
pub fn is_ancestor(a: &Vec<usize>, b: &Vec<usize>) -> (r: bool)
    ensures
        r == is_strict_prefix(a@, b@),
{
    if a.len() >= b.len() {
        return false;
    }
    let mut i: usize = 0;
    while i < a.len()
        invariant
            i <= a.len(),
            a.len() < b.len(),
            forall|j: int| 0 <= j < i ==> a@[j] == b@[j],
        decreases a.len() - i,
    {
        if a[i] != b[i] {
            assert(b@.subrange(0, a.len() as int)[i as int] != a@[i as int]);
            return false;
        }
        i += 1;
    }
    assert(b@.subrange(0, a.len() as int) =~= a@);
    true
}

/// Whether two addresses are equal.
pub fn same_addr(a: &Vec<usize>, b: &Vec<usize>) -> (r: bool)
    ensures
        r == (a@ == b@),
{
    if a.len() != b.len() {
        return false;
    }
    let mut i: usize = 0;
    while i < a.len()
        invariant
            i <= a.len(),
            a.len() == b.len(),
            forall|j: int| 0 <= j < i ==> a@[j] == b@[j],
        decreases a.len() - i,
    {
        if a[i] != b[i] {
            return false;
        }
        i += 1;
    }
    assert(a@ =~= b@);
    true
}

/// The smallest multiple of the granularity that is at least `t`.
pub open spec fn granulated(t: int) -> int {
    let g = PROGRAM_NS_GRANULARITY as int;
    if t % g == 0 {
        t
    } else {
        t - t % g + g
    }
}

/// `t` rounded up to the next granularity boundary, or `u64::MAX` past the
/// last boundary that a `u64` holds.
pub open spec fn granule(t: u64) -> u64 {
    if granulated(t as int) <= u64::MAX {
        granulated(t as int) as u64
    } else {
        u64::MAX
    }
}

/// Rounds a time up to the next granularity boundary; times past the last
/// boundary that a `u64` holds saturate at `u64::MAX`.
pub fn granulate(t: u64) -> (r: u64)
    ensures
        r == granule(t),
{
    let rem = t % PROGRAM_NS_GRANULARITY;
    if rem == 0 {
        t
    } else if t - rem > u64::MAX - PROGRAM_NS_GRANULARITY {
        u64::MAX
    } else {
        t - rem + PROGRAM_NS_GRANULARITY
    }
}

/// `a - b`, or zero where `b` is the later time.
pub open spec fn elapsed(a: u64, b: u64) -> u64 {
    if a >= b {
        (a - b) as u64
    } else {
        0
    }
}

} // verus!
