//! Searching local time for the first instant at which a monotonic condition holds.
use vstd::prelude::*;

verus! {

/// The first integer nanosecond in `[lo, hi]` at which `predicate` holds, for a predicate
/// that stays true once it holds; found by bisection without rounding early. `None` when
/// the range is empty or the predicate does not hold at `hi`.
///
/// Each claim is about an answer the predicate gave: the result is a point where it
/// answered true, just after one where it answered false (or at `lo`).
pub fn first<F: Fn(u64) -> bool>(lo: u64, hi: u64, predicate: F) -> (r: Option<u64>)
    requires
        forall|t: u64| lo <= t <= hi ==> call_requires(predicate, (t,)),
    ensures
        r is None ==> lo > hi || call_ensures(predicate, (hi,), false),
        r matches Some(x) ==> {
            &&& lo <= x <= hi
            &&& call_ensures(predicate, (x,), true)
            &&& x == lo || call_ensures(predicate, ((x - 1) as u64,), false)
        },
{
    if lo > hi {
        return None;
    }
    if !predicate(hi) {
        return None;
    }
    let mut a = lo;
    let mut b = hi;
    while a < b
        invariant
            lo <= a <= b <= hi,
            forall|t: u64| lo <= t <= hi ==> call_requires(predicate, (t,)),
            call_ensures(predicate, (b,), true),
            a == lo || call_ensures(predicate, ((a - 1) as u64,), false),
        decreases b - a,
    {
        let mid = a + (b - a) / 2;
        if predicate(mid) {
            b = mid;
        } else {
            a = mid + 1;
        }
    }
    Some(a)
}

/// For a predicate that always answers as `p` does and stays true once `p` holds, the
/// point `first` finds is the least in range where `p` holds.
pub proof fn lemma_first_is_least(p: spec_fn(u64) -> bool, lo: u64, hi: u64, x: u64)
    requires
        forall|s: u64, t: u64| s <= t && #[trigger] p(s) ==> #[trigger] p(t),
        lo <= x <= hi,
        p(x),
        x == lo || !p((x - 1) as u64),
    ensures
        forall|t: u64| lo <= t < x ==> !#[trigger] p(t),
{
    assert forall|t: u64| lo <= t < x implies !#[trigger] p(t) by {
        if p(t) {
            assert(p((x - 1) as u64));
        }
    }
}

} // verus!
