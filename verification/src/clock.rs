//! Timing exchanges between a follower and its leader.
use vstd::prelude::*;

verus! {

/// Maximum complete exchange duration, including leader application residence time.
pub const MAX_EXCHANGE_NS: u64 = 500_000_000;

/// Four monotonic nanosecond timestamps in the NTP convention: request sent (t1, local),
/// request received (t2, leader), reply sent (t3, leader), reply received (t4, local).
#[derive(Clone, Copy, Debug, PartialEq, Eq, Structural)]
pub struct Exchange {
    pub t1: u64,
    pub t2: u64,
    pub t3: u64,
    pub t4: u64,
}

/// Round trip minus the leader's residence time: the time the exchange spent on the path.
pub open spec fn path_delay_spec(e: Exchange) -> int {
    (e.t4 - e.t1) - (e.t3 - e.t2)
}

/// Twice the measured offset of the leader's clock: the mean of the two one-way
/// differences, doubled to stay integral.
pub open spec fn offset2_spec(e: Exchange) -> int {
    (e.t2 - e.t1) + (e.t3 - e.t4)
}

/// An exchange the clock estimator can use: ordered on each side, within the signed
/// clock range, completed within `MAX_EXCHANGE_NS`, with a path delay in [0, 500 ms].
pub open spec fn exchange_usable(e: Exchange) -> bool {
    &&& e.t1 <= e.t4
    &&& e.t2 <= e.t3
    &&& e.t1 <= i64::MAX && e.t2 <= i64::MAX && e.t3 <= i64::MAX && e.t4 <= i64::MAX
    &&& e.t4 - e.t1 <= MAX_EXCHANGE_NS
    &&& 0 <= path_delay_spec(e) <= 500_000_000
}

/// The path delay of a usable exchange; `None` for one the estimator rejects.
pub fn path_delay(e: Exchange) -> (r: Option<u64>)
    ensures
        r == (if exchange_usable(e) {
            Some(path_delay_spec(e) as u64)
        } else {
            None
        }),
{
    let max = i64::MAX as u64;
    if e.t4 < e.t1 || e.t3 < e.t2 || e.t1 > max || e.t2 > max || e.t3 > max || e.t4 > max {
        return None;
    }
    let round_trip = e.t4 - e.t1;
    if round_trip > MAX_EXCHANGE_NS {
        return None;
    }
    let residence = e.t3 - e.t2;
    if residence > round_trip {
        return None;
    }
    let delay = round_trip - residence;
    if delay > 500_000_000 {
        return None;
    }
    Some(delay)
}

/// Twice the measured offset, exactly.
pub fn offset2(e: Exchange) -> (r: i128)
    requires
        e.t1 <= i64::MAX && e.t2 <= i64::MAX && e.t3 <= i64::MAX && e.t4 <= i64::MAX,
    ensures
        r == offset2_spec(e),
{
    (e.t2 as i128 - e.t1 as i128) + (e.t3 as i128 - e.t4 as i128)
}

/// Whatever the two one-way delays, as long as neither is negative, the leader's true
/// offset `theta` lies within half the path delay of the measured offset.
pub proof fn lemma_offset_within_half_delay(e: Exchange, theta: int, outbound: int, inbound: int)
    requires
        outbound >= 0,
        inbound >= 0,
        e.t2 == e.t1 + theta + outbound,
        e.t4 == e.t3 - theta + inbound,
    ensures
        path_delay_spec(e) == outbound + inbound,
        offset2_spec(e) - path_delay_spec(e) <= 2 * theta <= offset2_spec(e) + path_delay_spec(e),
{
}

} // verus!
