//! What a follower admits of the snapshots it receives, when it reports a discontinuity,
//! and when repeated large errors are confirmed.
use vstd::prelude::*;

use crate::timeline::{
    lemma_at_at_least_base, lemma_latched_ordered, latched, latched_discontinuity, schedule_ordered,
    Timeline,
};

verus! {

/// What admitting a snapshot means for the follower's output.
#[derive(Clone, Copy, Debug, PartialEq, Eq, Structural)]
pub enum SnapshotOutcome {
    /// A new leader session: clock acquisition starts over.
    NewSession,
    /// The discontinuity in force changed to this one.
    Discontinuity(u64),
    /// Same trajectory: correct the phase as usual.
    Continue,
}

/// The session a follower is bound to on its current connection, and the last
/// discontinuity it reported for a session.
#[derive(Clone, Copy, Debug)]
pub struct SnapshotGate {
    pub expected_session: Option<[u8; 16]>,
    pub reported: Option<([u8; 16], u64)>,
}

/// The connection is bound to another session than the snapshot's.
pub open spec fn pinned_elsewhere(expected: Option<[u8; 16]>, t: Timeline) -> bool {
    match expected {
        Some(s) => s != t.session,
        None => false,
    }
}

pub open spec fn max_u64(a: u64, b: u64) -> u64 {
    if a >= b {
        a
    } else {
        b
    }
}

/// A newer revision of the current session that would undo the discontinuity `before`
/// already in force, or change the format without a new discontinuity.
pub open spec fn undoes(current: Timeline, t: Timeline, before: u64) -> bool {
    let d = latched_discontinuity(t, max_u64(current.discontinuity, before));
    d < before || (t.format != current.format && d == before)
}

/// Whether a follower showing `current`, with discontinuity `before` in force, admits the
/// snapshot `t`: it belongs to the connection's session, and is either a new session or a
/// newer revision that undoes nothing.
pub open spec fn admitted(expected: Option<[u8; 16]>, current: Timeline, t: Timeline, before: u64) -> bool {
    &&& !pinned_elsewhere(expected, t)
    &&& (current.session != t.session || (t.revision > current.revision && !undoes(
        current,
        t,
        before,
    )))
}

/// What `tick` reports for discontinuity `disc` of `session`, given the last report.
pub open spec fn tick_report(reported: Option<([u8; 16], u64)>, session: [u8; 16], disc: u64) -> Option<u64> {
    match reported {
        Some(p) => if p.0 == session && p.1 != disc {
            Some(disc)
        } else {
            None
        },
        None => None,
    }
}

/// Whether two session identifiers are equal.
pub fn same_session(a: &[u8; 16], b: &[u8; 16]) -> (r: bool)
    ensures
        r == (*a == *b),
{
    let mut i: usize = 0;
    while i < 16
        invariant
            i <= 16,
            forall|j: int| 0 <= j < i ==> a[j] == b[j],
        decreases 16 - i,
    {
        if a[i] != b[i] {
            return false;
        }
        i = i + 1;
    }
    proof {
        broadcast use vstd::array::axiom_array_ext_equal;

        assert(*a =~= *b);
    }
    true
}

impl SnapshotGate {
    pub fn new() -> (g: Self)
        ensures
            g.expected_session is None,
            g.reported is None,
    {
        SnapshotGate { expected_session: None, reported: None }
    }

    /// A new transport may carry a new leader session.
    pub fn connected(&mut self)
        ensures
            final(self).expected_session is None,
            final(self).reported == old(self).reported,
    {
        self.expected_session = None;
    }

    /// Clock measurements count only once a snapshot has bound the connection.
    pub fn has_session(&self) -> (r: bool)
        ensures
            r == self.expected_session is Some,
    {
        self.expected_session.is_some()
    }

    /// Admits or ignores the snapshot `t` while showing `current`, with discontinuity
    /// `before` in force and leader time `leader_now`. An admitted snapshot of the current
    /// session first applies the changes the follower has already reached.
    pub fn state(&mut self, current: &Timeline, t: Timeline, before: u64, leader_now: u64) -> (r:
        Option<(Timeline, SnapshotOutcome)>)
        requires
            t.scheduled_len <= 4,
        ensures
            final(self).expected_session == (if pinned_elsewhere(old(self).expected_session, t) {
                old(self).expected_session
            } else {
                Some(t.session)
            }),
            r is Some <==> admitted(old(self).expected_session, *current, t, before),
            r is None ==> final(self).reported == old(self).reported,
            r matches Some((u, out)) ==> if current.session != t.session {
                &&& u == t
                &&& out == SnapshotOutcome::NewSession
                &&& final(self).reported == old(self).reported
            } else {
                let d = u.spec_at(leader_now).2;
                &&& latched(t, u, max_u64(current.discontinuity, before))
                &&& u.scheduled_len <= 4
                &&& out == (if d != before {
                    SnapshotOutcome::Discontinuity(d)
                } else {
                    SnapshotOutcome::Continue
                })
                &&& final(self).reported == (if d != before {
                    Some((t.session, d))
                } else {
                    old(self).reported
                })
            },
            // A newer revision can neither undo a discontinuity already in force nor change
            // the format without a new one.
            r matches Some((u, _)) ==> (current.session == t.session ==> u.revision
                > current.revision && u.discontinuity >= before && (u.format != current.format
                ==> u.discontinuity > before)),
            // When its schedule is in order, as that of every valid snapshot is, the same
            // holds of the discontinuity in force at every leader time.
            r matches Some((u, _)) ==> (current.session == t.session && schedule_ordered(t) ==> (
            schedule_ordered(u) && forall|time: u64|
                #[trigger] u.spec_at(time).2 >= before && (u.format != current.format
                    ==> u.spec_at(time).2 > before))),
    {
        match self.expected_session {
            Some(s) => if !same_session(&s, &t.session) {
                return None;
            },
            None => {},
        }
        self.expected_session = Some(t.session);
        if !same_session(&current.session, &t.session) {
            return Some((t, SnapshotOutcome::NewSession));
        }
        if t.revision <= current.revision {
            return None;
        }
        let mut u = t;
        let floor = if current.discontinuity >= before {
            current.discontinuity
        } else {
            before
        };
        u.latch(floor);
        if u.discontinuity < before || (u.format != current.format && u.discontinuity == before) {
            return None;
        }
        proof {
            if schedule_ordered(t) {
                lemma_latched_ordered(t, u, floor);
                assert forall|time: u64| #[trigger] u.spec_at(time).2 >= before && (u.format
                    != current.format ==> u.spec_at(time).2 > before) by {
                    lemma_at_at_least_base(u, time);
                }
            }
        }
        let (_, _, d) = u.at(leader_now);
        if d != before {
            self.reported = Some((t.session, d));
            Some((u, SnapshotOutcome::Discontinuity(d)))
        } else {
            Some((u, SnapshotOutcome::Continue))
        }
    }

    /// A clock measurement moved the follower to discontinuity `disc` of `session`.
    pub fn measured(&mut self, session: [u8; 16], disc: u64)
        ensures
            final(self).reported == Some((session, disc)),
            final(self).expected_session == old(self).expected_session,
    {
        self.reported = Some((session, disc));
    }

    /// Applies the scheduled changes up to the discontinuity `disc` now in force and
    /// reports it if it differs from the last one reported for the same session.
    pub fn tick(&mut self, timeline: &mut Timeline, disc: u64) -> (r: Option<u64>)
        requires
            old(timeline).scheduled_len <= 4,
        ensures
            latched(*old(timeline), *final(timeline), disc),
            final(self).reported == Some((old(timeline).session, disc)),
            final(self).expected_session == old(self).expected_session,
            r == tick_report(old(self).reported, old(timeline).session, disc),
    {
        timeline.latch(disc);
        let key = (timeline.session, disc);
        let previous = self.reported;
        self.reported = Some(key);
        match previous {
            Some(p) => if same_session(&p.0, &key.0) && p.1 != key.1 {
                Some(disc)
            } else {
                None
            },
            None => None,
        }
    }
}

/// A discontinuity is reported once: after it is reported (or seen) for a session, the
/// same discontinuity of that session is not reported again.
pub proof fn lemma_reported_once(session: [u8; 16], disc: u64, reported: Option<([u8; 16], u64)>)
    ensures
        tick_report(Some((session, disc)), session, disc) is None,
        tick_report(reported, session, disc) matches Some(d) ==> d == disc,
{
}

/// Confirmation of repeated large errors in one direction before acting on them.
#[derive(Clone, Copy, Debug)]
pub struct Confirmation {
    pub count: u8,
    pub sign: i8,
}

/// The count after a large error in direction `sign`: restarted on a reversal, and
/// incremented (saturating) when the observation counts.
pub open spec fn large_count(c: Confirmation, sign: i8, counts: bool) -> u8 {
    let c0 = if sign != c.sign {
        0u8
    } else {
        c.count
    };
    if counts {
        if c0 == u8::MAX {
            c0
        } else {
            (c0 + 1) as u8
        }
    } else {
        c0
    }
}

/// Only counting observations count: one that does not count leaves the count of large
/// errors in a direction (restarted on a reversal) as it was, and one that counts adds
/// one to it, up to the counter's limit.
pub proof fn lemma_only_counted_errors_count(c: Confirmation, sign: i8)
    ensures
        large_count(c, sign, false) == (if sign == c.sign {
            c.count
        } else {
            0
        }),
        large_count(c, sign, false) < u8::MAX ==> large_count(c, sign, true) == large_count(
            c,
            sign,
            false,
        ) + 1,
        large_count(c, sign, false) == u8::MAX ==> large_count(c, sign, true) == u8::MAX,
{
}

impl Confirmation {
    pub fn new() -> (c: Self)
        ensures
            c.count == 0 && c.sign == 0,
    {
        Confirmation { count: 0, sign: 0 }
    }

    /// An error beyond the threshold in direction `sign`; `counts` tells whether this
    /// observation counts toward the `needed` confirmations. Returns whether the error is
    /// now confirmed, which restarts the count.
    pub fn large(&mut self, sign: i8, counts: bool, needed: u8) -> (confirmed: bool)
        ensures
            confirmed == (large_count(*old(self), sign, counts) >= needed),
            final(self).sign == sign,
            final(self).count == (if confirmed {
                0
            } else {
                large_count(*old(self), sign, counts)
            }),
            // Alternating directions never confirm when two or more are needed.
            sign != old(self).sign && needed >= 2 ==> !confirmed,
            // An observation that does not count adds nothing: it confirms only a count that
            // already reached `needed`, and otherwise leaves the count (restarted on a
            // reversal) as it was.
            !counts ==> (confirmed <==> (if sign == old(self).sign {
                old(self).count
            } else {
                0
            }) >= needed),
            !counts && !confirmed ==> final(self).count == (if sign == old(self).sign {
                old(self).count
            } else {
                0
            }),
            // One that counts adds exactly one, up to the limit of the counter.
            counts && old(self).count < u8::MAX ==> (confirmed <==> (if sign == old(self).sign {
                old(self).count + 1
            } else {
                1
            }) >= needed),
    {
        if sign != self.sign {
            self.count = 0;
        }
        self.sign = sign;
        if counts {
            self.count = self.count.saturating_add(1);
        }
        if self.count >= needed {
            self.count = 0;
            true
        } else {
            false
        }
    }

    /// An error within the threshold restarts the count.
    pub fn small(&mut self)
        ensures
            final(self).count == 0,
            final(self).sign == old(self).sign,
    {
        self.count = 0;
    }

    /// Forgets both the count and the direction.
    pub fn reset(&mut self)
        ensures
            final(self).count == 0 && final(self).sign == 0,
    {
        self.count = 0;
        self.sign = 0;
    }
}

} // verus!
