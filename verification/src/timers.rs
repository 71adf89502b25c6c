//! Deadline decisions of the transport's timer registry, on a monotonic clock in
//! nanoseconds. The registry itself (shared timers and their wakers) lives with the
//! transport; it hands each timer's deadline to these functions and wakes what they name.
use vstd::prelude::*;

verus! {

/// A timer with deadline `at` has expired at `now`.
pub open spec fn expired(at: Option<u64>, now: u64) -> bool {
    match at {
        Some(a) => a <= now,
        None => false,
    }
}

/// The earliest deadline among `deadlines` that is still ahead of `now`.
pub open spec fn next_deadline(deadlines: Seq<Option<u64>>, now: u64) -> Option<u64>
    decreases deadlines.len(),
{
    if deadlines.len() == 0 {
        None
    } else {
        let rest = next_deadline(deadlines.drop_last(), now);
        match deadlines.last() {
            Some(a) if a > now => match rest {
                Some(b) => Some(if a <= b { a } else { b }),
                None => Some(a),
            },
            _ => rest,
        }
    }
}

/// Whether a timer is ready when polled at `now`.
pub fn is_expired(at: Option<u64>, now: u64) -> (r: bool)
    ensures
        r == expired(at, now),
{
    match at {
        Some(a) => a <= now,
        None => false,
    }
}

/// Setting a timer wakes its waiters only when the deadline actually changes.
pub fn reschedule_wakes(old: Option<u64>, at: Option<u64>) -> (r: bool)
    ensures
        r == (old != at),
{
    match (old, at) {
        (Some(a), Some(b)) => a != b,
        (None, None) => false,
        _ => true,
    }
}

/// One pass over the registry at `now`: which timers have expired (their waiters are
/// woken) and the earliest deadline still ahead, when the next pass is due.
pub fn advance(deadlines: &[Option<u64>], now: u64) -> (r: (Option<u64>, Vec<bool>))
    ensures
        r.0 == next_deadline(deadlines@, now),
        r.1@.len() == deadlines@.len(),
        forall|i: int| 0 <= i < deadlines@.len() ==> r.1@[i] == expired(#[trigger] deadlines@[i], now),
{
    let mut next: Option<u64> = None;
    let mut due: Vec<bool> = Vec::new();
    let mut i: usize = 0;
    while i < deadlines.len()
        invariant
            i <= deadlines@.len(),
            next == next_deadline(deadlines@.take(i as int), now),
            due@.len() == i,
            forall|j: int| 0 <= j < i ==> due@[j] == expired(#[trigger] deadlines@[j], now),
        decreases deadlines.len() - i,
    {
        let at = deadlines[i];
        assert(deadlines@.take(i + 1).drop_last() =~= deadlines@.take(i as int));
        due.push(is_expired(at, now));
        match at {
            Some(a) => if a > now {
                next = match next {
                    Some(b) => Some(if a <= b { a } else { b }),
                    None => Some(a),
                };
            },
            None => {},
        }
        i = i + 1;
    }
    assert(deadlines@.take(i as int) =~= deadlines@);
    (next, due)
}

/// A deadline still ahead of `now`.
pub open spec fn ahead(at: Option<u64>, now: u64) -> bool {
    match at {
        Some(a) => a > now,
        None => false,
    }
}

/// The next deadline is the earliest of the deadlines still ahead: it is one of them, and
/// none of them is earlier; there is none exactly when no deadline is ahead.
pub proof fn lemma_next_deadline_is_earliest(deadlines: Seq<Option<u64>>, now: u64)
    ensures
        next_deadline(deadlines, now) is None <==> forall|i: int|
            0 <= i < deadlines.len() ==> !ahead(#[trigger] deadlines[i], now),
        next_deadline(deadlines, now) matches Some(n) ==> n > now && exists|i: int|
            0 <= i < deadlines.len() && #[trigger] deadlines[i] == Some(n),
        next_deadline(deadlines, now) matches Some(n) ==> forall|i: int|
            0 <= i < deadlines.len() && ahead(#[trigger] deadlines[i], now) ==> n
                <= deadlines[i]->0,
    decreases deadlines.len(),
{
    if deadlines.len() > 0 {
        let init = deadlines.drop_last();
        lemma_next_deadline_is_earliest(init, now);
        let last = deadlines.len() - 1;
        assert forall|i: int| 0 <= i < last implies deadlines[i] == #[trigger] init[i] by {}
        let rest = next_deadline(init, now);
        if let Some(b) = rest {
            let w = choose|i: int| 0 <= i < init.len() && #[trigger] init[i] == Some(b);
            assert(deadlines[w] == Some(b));
        }
        if ahead(deadlines[last], now) {
            let a = deadlines[last]->0;
            assert(deadlines[last] == deadlines.last());
            let n = next_deadline(deadlines, now)->0;
            assert(n <= a);
            assert(next_deadline(deadlines, now) is Some);
            assert(!(forall|i: int| 0 <= i < deadlines.len() ==> !ahead(#[trigger] deadlines[i], now)));
            assert forall|i: int| 0 <= i < deadlines.len() && ahead(#[trigger] deadlines[i], now)
                implies n <= deadlines[i]->0 by {
                if i < last {
                    assert(init[i] == deadlines[i]);
                    assert(ahead(init[i], now));
                }
            }
        } else {
            assert(next_deadline(deadlines, now) == rest);
            assert forall|i: int| 0 <= i < deadlines.len() && ahead(#[trigger] deadlines[i], now)
                implies i < last && ahead(init[i], now) by {}
            if rest is None {
                assert forall|i: int| 0 <= i < deadlines.len() implies !ahead(#[trigger] deadlines[i], now) by {
                    if i < last {
                        assert(init[i] == deadlines[i]);
                    }
                }
            }
        }
    }
}

} // verus!
