//! The frontier of outstanding capabilities that the replay driver holds,
//! kept in timely's `MutableAntichain` over `u64` times.
use vstd::prelude::*;
use timely::progress::frontier::MutableAntichain;

verus! {

/// A timely `MutableAntichain` over `u64` times: counts per time, and the
/// least time whose count is positive.
#[verifier::external_body]
pub struct Antichain {
    inner: MutableAntichain<u64>,
}

/// The count that an antichain holds for each time it was updated at; a
/// time it never saw has count zero.
pub uninterp spec fn antichain_counts(a: Antichain) -> Map<u64, int>;

/// The counts of an antichain that has seen no update.
pub open spec fn no_counts() -> Map<u64, int> {
    Map::empty()
}

/// The count of `t` in `m`.
pub open spec fn count_at(m: Map<u64, int>, t: u64) -> int {
    if m.contains_key(t) {
        m[t]
    } else {
        0
    }
}

/// `m` after adding `delta` to the count of `t`.
pub open spec fn updated(m: Map<u64, int>, t: u64, delta: int) -> Map<u64, int> {
    m.insert(t, count_at(m, t) + delta)
}

/// Whether every count of `m` is at most zero: no capability is held.
pub open spec fn no_positive(m: Map<u64, int>) -> bool {
    forall|t: u64| count_at(m, t) <= 0
}

/// The times whose count is positive.
pub open spec fn positive_times(m: Map<u64, int>) -> Set<u64> {
    m.dom().filter(|t: u64| m[t] > 0)
}

/// A count that an `i64` holds.
pub open spec fn fits_i64(c: int) -> bool {
    i64::MIN <= c <= i64::MAX
}

/// Relies on `MutableAntichain::new`: an antichain with no count.
#[verifier::external_body]
pub(crate) fn new_antichain() -> (r: Antichain)
    ensures
        antichain_counts(r) == no_counts(),
{
    Antichain { inner: MutableAntichain::new() }
}

/// Relies on `MutableAntichain::update_iter` with one update: it adds
/// `delta` to the count of `time`. Its internal sums stay within `i64` when
/// every count it passes through does.
#[verifier::external_body]
pub(crate) fn antichain_update(a: &mut Antichain, time: u64, delta: i64)
    requires
        fits_i64(count_at(antichain_counts(*old(a)), time) + delta),
    ensures
        antichain_counts(*final(a)) == updated(antichain_counts(*old(a)), time, delta as int),
{
    a.inner.update_iter(Some((time, delta)));
}

/// Relies on `MutableAntichain::frontier`: the minimal times with a
/// positive count, which for totally ordered `u64` times is the least such
/// time, or nothing.
#[verifier::external_body]
pub(crate) fn antichain_frontier(a: &Antichain) -> (r: Vec<u64>)
    ensures
        r@.len() <= 1,
        r@.len() == 0 <==> no_positive(antichain_counts(*a)),
        r@.len() == 1 ==> count_at(antichain_counts(*a), r@[0]) > 0,
        r@.len() == 1 ==> forall|t: u64|
            count_at(antichain_counts(*a), t) > 0 ==> r@[0] <= t,
{
    a.inner.frontier().to_vec()
}

/// Relies on `MutableAntichain::count_for`: the count of `time`.
#[verifier::external_body]
pub(crate) fn antichain_count(a: &Antichain, time: u64) -> (r: i64)
    requires
        fits_i64(count_at(antichain_counts(*a), time)),
    ensures
        r as int == count_at(antichain_counts(*a), time),
{
    a.inner.count_for(&time)
}

} // verus!
