//! A leader between transport passes: its timeline, the snapshot it last published, and
//! what decides the next publication. The engine's leader job feeds it commands, source
//! samples and passes, each at a reading of the monotonic clock in nanoseconds, and sends
//! what it publishes.
use vstd::prelude::*;

use crate::config::Timing;
use crate::engine::{
    leader_deadline, leader_deadline_spec, publish_due, publish_due_spec, republish,
    sat_add, source_deadline, start_leader,
};
use crate::timeline::{
    applied_due, change_error, change_timeline, changed, discontinuities_below_max, first_due,
    publishable, Anchor, Change, Scheduled, SourceHealth, SourceKind, Timeline,
};
use crate::timers::{expired, is_expired};
use crate::tracking::{apply_sample, check_sample, health_at, sample_error, source_health};
use crate::wire::encode_snapshot_spec;
use crate::{encode, Error, FrameFormat, Position, Rate};

verus! {

/// A leader's state between passes.
pub struct LeaderState {
    /// The timeline it leads.
    pub timeline: Timeline,
    /// The snapshot it last published, which a newly connected follower receives first.
    pub bytes: Vec<u8>,
    /// When it last published.
    pub last_publish: u64,
    /// Whether an external source moved the timeline since the last publication.
    pub dirty: bool,
    /// Whether a change or a health change waits for the next pass to be published.
    pub pending: bool,
    /// When the external source goes stale unless it is sampled again.
    pub source_deadline: Option<u64>,
    /// When the external source was last sampled.
    pub last_sample: Option<u64>,
    pub timing: Timing,
}

/// The encoded snapshot of a timeline.
fn encode_timeline(t: &Timeline) -> (bytes: Vec<u8>)
    requires
        t.scheduled_len <= 4,
    ensures
        bytes@ == encode_snapshot_spec(t.wire_spec()),
{
    let s = t.wire();
    proof {
        crate::wire::lemma_snapshot_size(t.wire_spec());
    }
    match encode(&s) {
        Ok(bytes) => bytes,
        Err(_) => Vec::new(),
    }
}

/// The health a pass gives the timeline: an external source's by the age of its last
/// sample; a generated timeline keeps its own.
pub open spec fn next_health(s: LeaderState, now: u64) -> SourceHealth {
    if s.timeline.source_kind == SourceKind::External {
        health_at(s.last_sample, now, s.timing.source_timeout)
    } else {
        s.timeline.source_health
    }
}

/// Whether a pass at `now` publishes: after an accepted change or health change, when a
/// scheduled change falls due, when the source's health changes, and when a heartbeat (or
/// the tracked-publish interval of a moved timeline) has passed.
pub open spec fn publish_needed(s: LeaderState, now: u64) -> bool {
    ||| s.pending
    ||| first_due(s.timeline.scheduled@, s.timeline.scheduled_len as nat, now, 0) > 0
    ||| next_health(s, now) != s.timeline.source_health
    ||| publish_due_spec(s.last_publish, s.dirty, now, s.timing)
}

/// The earlier of two optional deadlines.
pub open spec fn earlier(a: Option<u64>, b: Option<u64>) -> Option<u64> {
    match (a, b) {
        (Some(x), Some(y)) => Some(
            if x <= y {
                x
            } else {
                y
            },
        ),
        (Some(x), None) => Some(x),
        (None, y) => y,
    }
}

/// The earlier of two optional deadlines is there when either is, is no later than
/// either, and is one of them.
pub proof fn lemma_earlier_is_minimum(a: Option<u64>, b: Option<u64>)
    ensures
        earlier(a, b) is Some <==> (a is Some || b is Some),
        a matches Some(x) ==> earlier(a, b) matches Some(z) && z <= x,
        b matches Some(y) ==> earlier(a, b) matches Some(z) && z <= y,
        earlier(a, b) matches Some(z) ==> a == Some(z) || b == Some(z),
{
}

fn earlier_of(a: Option<u64>, b: Option<u64>) -> (r: Option<u64>)
    ensures
        r == earlier(a, b),
        r is Some <==> (a is Some || b is Some),
        a matches Some(x) ==> r matches Some(z) && z <= x,
        b matches Some(y) ==> r matches Some(z) && z <= y,
{
    match (a, b) {
        (Some(x), Some(y)) => Some(
            if x <= y {
                x
            } else {
                y
            },
        ),
        (Some(x), None) => Some(x),
        (None, y) => y,
    }
}

impl LeaderState {
    /// A leader starting at `now` under a fresh session, with its first snapshot encoded.
    pub fn start(
        format: FrameFormat,
        now: u64,
        position: Position,
        rate: Rate,
        source_kind: SourceKind,
        timing: Timing,
    ) -> (s: Self)
        ensures
            s.timeline.session@[6] / 16 == 4 && s.timeline.session@[8] / 64 == 2,
            s.timeline.revision == 1,
            s.timeline.discontinuity == 0,
            s.timeline.format == format,
            s.timeline.anchor == (Anchor { time_ns: now, position, rate }),
            s.timeline.source_kind == source_kind,
            s.timeline.source_health == (if source_kind == SourceKind::External {
                SourceHealth::Degraded
            } else {
                SourceHealth::Healthy
            }),
            s.timeline.scheduled_len == 0,
            s.bytes@ == encode_snapshot_spec(s.timeline.wire_spec()),
            s.last_publish == now,
            !s.dirty,
            !s.pending,
            s.source_deadline is None,
            s.last_sample is None,
            s.timing == timing,
            now <= i64::MAX ==> publishable(s.timeline),
    {
        let timeline = start_leader(format, now, position, rate, source_kind);
        let bytes = encode_timeline(&timeline);
        LeaderState {
            timeline,
            bytes,
            last_publish: now,
            dirty: false,
            pending: false,
            source_deadline: None,
            last_sample: None,
            timing,
        }
    }

    /// A transport control, applied to the timeline as `change_timeline` does; an accepted
    /// one is published on the next pass.
    pub fn change(&mut self, change: Change, effective: Option<u64>, now: u64) -> (r: Result<
        (),
        Error,
    >)
        requires
            old(self).timeline.scheduled_len <= 4,
            discontinuities_below_max(old(self).timeline),
        ensures
            match change_error(old(self).timeline, effective, now) {
                Some(e) => r == Err::<(), Error>(e) && final(self).timeline == old(self).timeline,
                None => r is Ok && changed(
                    old(self).timeline,
                    final(self).timeline,
                    change,
                    effective,
                    now,
                ),
            },
            final(self).pending == (old(self).pending || r is Ok),
            final(self).bytes == old(self).bytes,
            final(self).last_publish == old(self).last_publish,
            final(self).dirty == old(self).dirty,
            final(self).source_deadline == old(self).source_deadline,
            final(self).last_sample == old(self).last_sample,
            final(self).timing == old(self).timing,
    {
        let result = change_timeline(&mut self.timeline, change, effective, now);
        if result.is_ok() {
            self.pending = true;
        }
        result
    }

    /// Whether a sample of the external source taken at `timestamp` and handed in at `now`
    /// is admitted, as `check_sample` decides.
    pub fn admit_sample(&self, timestamp: u64, now: u64) -> (r: Result<(), Error>)
        ensures
            match r {
                Ok(_) => sample_error(self.timeline.source_kind, self.last_sample, timestamp, now)
                    is None,
                Err(e) => sample_error(self.timeline.source_kind, self.last_sample, timestamp, now)
                    == Some(e),
            },
    {
        check_sample(self.timeline.source_kind, self.last_sample, timestamp, now)
    }

    /// Re-anchors the timeline at an admitted sample, as `apply_sample` does. The moved
    /// timeline is published within the tracked-publish interval; at the next pass when the
    /// sample was a change or brought the source back to health. The source goes stale
    /// after the source timeout.
    pub fn take_sample(
        &mut self,
        timestamp: u64,
        position: Position,
        rate: Rate,
        changed: bool,
        now: u64,
    )
        requires
            changed ==> old(self).timeline.discontinuity < u64::MAX,
        ensures
            final(self).timeline.anchor == (Anchor { time_ns: timestamp, position, rate }),
            final(self).timeline.source_health == SourceHealth::Healthy,
            final(self).timeline.discontinuity == (if changed {
                old(self).timeline.discontinuity + 1
            } else {
                old(self).timeline.discontinuity as int
            }),
            final(self).timeline.scheduled_len == (if changed {
                0
            } else {
                old(self).timeline.scheduled_len
            }),
            final(self).timeline.scheduled == old(self).timeline.scheduled,
            final(self).timeline.session == old(self).timeline.session,
            final(self).timeline.revision == old(self).timeline.revision,
            final(self).timeline.format == old(self).timeline.format,
            final(self).timeline.source_kind == old(self).timeline.source_kind,
            final(self).dirty,
            final(self).pending == (old(self).pending || changed || old(self).timeline.source_health
                != SourceHealth::Healthy),
            final(self).last_sample == Some(timestamp),
            final(self).source_deadline == Some(
                ({
                    let due = sat_add(sat_add(timestamp, old(self).timing.source_timeout), 1);
                    if due > now {
                        due
                    } else {
                        now
                    }
                }),
            ),
            final(self).bytes == old(self).bytes,
            final(self).last_publish == old(self).last_publish,
            final(self).timing == old(self).timing,
    {
        let before = self.timeline.source_health;
        apply_sample(&mut self.timeline, timestamp, position, rate, changed);
        let recovered = match before {
            SourceHealth::Healthy => false,
            SourceHealth::Degraded => true,
        };
        if changed || recovered {
            self.pending = true;
        }
        self.dirty = true;
        self.last_sample = Some(timestamp);
        self.source_deadline = Some(source_deadline(timestamp, self.timing.source_timeout, now));
    }

    /// One pass at `now`: applies the scheduled changes that fell due, follows the health of
    /// an external source, and publishes a new revision when `publish_needed` says so.
    /// Returns whether it published; the snapshot is then in `bytes`.
    pub fn pass(&mut self, now: u64) -> (published: bool)
        requires
            old(self).timeline.scheduled_len <= 4,
            old(self).timeline.revision < u64::MAX,
        ensures
            published == publish_needed(*old(self), now),
            applied_due(old(self).timeline, final(self).timeline, now),
            final(self).timeline.source_health == next_health(*old(self), now),
            final(self).timeline.revision == (if published {
                old(self).timeline.revision + 1
            } else {
                old(self).timeline.revision as int
            }),
            final(self).timeline.session == old(self).timeline.session,
            final(self).timeline.format == old(self).timeline.format,
            final(self).timeline.source_kind == old(self).timeline.source_kind,
            !final(self).pending,
            published ==> final(self).bytes@ == encode_snapshot_spec(final(self).timeline.wire_spec())
                && final(self).last_publish == now && !final(self).dirty,
            !published ==> final(self).bytes == old(self).bytes && final(self).last_publish == old(
                self,
            ).last_publish && final(self).dirty == old(self).dirty,
            final(self).source_deadline == (if old(self).timeline.source_kind == SourceKind::External
                && expired(old(self).source_deadline, now) {
                None
            } else {
                old(self).source_deadline
            }),
            final(self).last_sample == old(self).last_sample,
            final(self).timing == old(self).timing,
            publishable(old(self).timeline) ==> publishable(final(self).timeline),
    {
        let ghost s0 = *self;
        let mut publish = self.pending;
        self.pending = false;
        if self.timeline.apply_due(now) {
            publish = true;
        }
        let external = match self.timeline.source_kind {
            SourceKind::External => true,
            SourceKind::Generated => false,
        };
        if external {
            let health = source_health(self.last_sample, now, self.timing.source_timeout);
            let differs = match (health, self.timeline.source_health) {
                (SourceHealth::Healthy, SourceHealth::Healthy) => false,
                (SourceHealth::Degraded, SourceHealth::Degraded) => false,
                _ => true,
            };
            if differs {
                self.timeline.source_health = health;
                publish = true;
            }
            if is_expired(self.source_deadline, now) {
                self.source_deadline = None;
            }
        }
        if publish_due(self.last_publish, self.dirty, now, &self.timing) {
            publish = true;
        }
        assert(publish == publish_needed(s0, now));
        if publish {
            self.bytes = match republish(&mut self.timeline) {
                Ok(bytes) => bytes,
                Err(_) => Vec::new(),
            };
            self.last_publish = now;
            self.dirty = false;
        }
        publish
    }

    /// The latest time the next pass must run, given the earliest deadlines of the
    /// transport (`io`) and of the peers still connecting (`peers`).
    pub fn deadline(&self, now: u64, io: Option<u64>, peers: Option<u64>) -> (r: u64)
        requires
            self.timeline.scheduled_len <= 4,
        ensures
            r == leader_deadline_spec(
                self.timeline,
                self.last_publish,
                self.dirty,
                self.timing,
                now,
                earlier(earlier(io, self.source_deadline), peers),
            ),
            // The pass runs no later than any deadline it is given.
            io matches Some(i) ==> r <= i,
            self.source_deadline matches Some(d) ==> r <= d,
            peers matches Some(p) ==> r <= p,
    {
        let pending = earlier_of(earlier_of(io, self.source_deadline), peers);
        leader_deadline(&self.timeline, self.last_publish, self.dirty, &self.timing, now, pending)
    }
}

/// A leader is woken in time for what it must publish: the deadline of its next pass is no
/// later than a heartbeat after its last publication, nor than its first scheduled change
/// (or now, when that is already due); and a pass at or after either publishes.
pub proof fn lemma_leader_wakes_in_time(s: LeaderState, now: u64, io: Option<u64>, peers: Option<u64>, later: u64)
    requires
        s.timeline.scheduled_len <= 4,
    ensures
        ({
            let d = leader_deadline_spec(
                s.timeline,
                s.last_publish,
                s.dirty,
                s.timing,
                now,
                earlier(earlier(io, s.source_deadline), peers),
            );
            &&& d <= sat_add(s.last_publish, s.timing.heartbeat)
            &&& s.timeline.scheduled_len > 0 ==> d <= (if s.timeline.scheduled@[0].anchor.time_ns
                > now {
                s.timeline.scheduled@[0].anchor.time_ns
            } else {
                now
            })
        }),
        later >= s.last_publish + s.timing.heartbeat ==> publish_needed(s, later),
        s.timeline.scheduled_len > 0 && later >= s.timeline.scheduled@[0].anchor.time_ns
            ==> publish_needed(s, later),
{
    if s.timeline.scheduled_len > 0 && later >= s.timeline.scheduled@[0].anchor.time_ns {
        assert(first_due(s.timeline.scheduled@, s.timeline.scheduled_len as nat, later, 0)
            == first_due(s.timeline.scheduled@, s.timeline.scheduled_len as nat, later, 1));
        lemma_first_due_from(s.timeline.scheduled@, s.timeline.scheduled_len as nat, later, 1);
    }
}

proof fn lemma_first_due_from(s: Seq<Scheduled>, len: nat, now: u64, i: nat)
    ensures
        first_due(s, len, now, i) >= i,
    decreases len - i,
{
    if i < len && s[i as int].anchor.time_ns <= now {
        lemma_first_due_from(s, len, now, i + 1);
    }
}

} // verus!
