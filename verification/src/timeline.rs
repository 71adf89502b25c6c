//! Timestamped trajectories, scheduled discontinuities and timeline changes.
use vstd::prelude::*;

use crate::timecode::{clamp_i64, rate_gcd, spec_advance, supported_format};
use crate::wire;
use crate::wire::SnapshotModel;
use crate::{Error, FrameFormat, Position, Rate};

verus! {

#[derive(Clone, Copy, Debug, PartialEq, Eq, Structural)]
pub enum ConnectionState {
    Disconnected,
    Connecting,
    Connected,
    Shutdown,
}

#[derive(Clone, Copy, Debug, PartialEq, Eq, Structural)]
pub enum SyncState {
    Uninitialized,
    Acquiring,
    Synchronized,
    Holdover,
}

#[derive(Clone, Copy, Debug, PartialEq, Eq, Structural)]
pub enum SourceKind {
    /// The leader generates the timeline itself.
    Generated,
    /// The leader follows samples of an external source.
    External,
}

#[derive(Clone, Copy, Debug, PartialEq, Eq, Structural)]
pub enum SourceHealth {
    Healthy,
    Degraded,
}

impl Default for ConnectionState {
    fn default() -> (r: Self)
        ensures
            r == ConnectionState::Disconnected,
    {
        ConnectionState::Disconnected
    }
}

impl Default for SyncState {
    fn default() -> (r: Self)
        ensures
            r == SyncState::Uninitialized,
    {
        SyncState::Uninitialized
    }
}

impl Default for SourceKind {
    fn default() -> (r: Self)
        ensures
            r == SourceKind::Generated,
    {
        SourceKind::Generated
    }
}

impl Default for SourceHealth {
    fn default() -> (r: Self)
        ensures
            r == SourceHealth::Healthy,
    {
        SourceHealth::Healthy
    }
}

/// A trajectory: `position` at local leader time `time_ns`, moving at `rate`.
#[derive(Clone, Copy, Debug, PartialEq, Eq, Structural)]
pub struct Anchor {
    pub time_ns: u64,
    pub position: Position,
    pub rate: Rate,
}

/// A change of trajectory that takes effect at its anchor's time.
#[derive(Clone, Copy, Debug, PartialEq, Eq, Structural)]
pub struct Scheduled {
    pub discontinuity: u64,
    pub anchor: Anchor,
}

/// The leader's published state: a current trajectory and up to four scheduled changes.
#[derive(Clone, Copy, Debug)]
pub struct Timeline {
    pub session: [u8; 16],
    pub revision: u64,
    pub discontinuity: u64,
    pub format: FrameFormat,
    pub anchor: Anchor,
    pub source_kind: SourceKind,
    pub source_health: SourceHealth,
    pub scheduled: [Scheduled; 4],
    pub scheduled_len: usize,
}

/// A transport control.
#[derive(Clone, Copy, Debug)]
pub enum Change {
    /// Keep the position, change the speed.
    Rate(Rate),
    /// Keep the speed, jump to a position.
    Seek(Position),
    /// Set position and speed together.
    Transport(Position, Rate),
}

/// Frame zero, paused, at time zero.
pub open spec fn default_anchor(a: Anchor) -> bool {
    &&& a.time_ns == 0
    &&& a.position == Position { frames: 0, subframe: 0 }
    &&& a.rate.spec_numerator() == 0
    &&& a.rate.spec_denominator() == 1
}

impl Anchor {
    /// The position of this trajectory at leader time `time`.
    pub open spec fn spec_at(self, time: u64, format: FrameFormat) -> Position {
        spec_advance(
            self.position,
            clamp_i64(time - self.time_ns),
            format,
            self.rate,
        )
    }

    pub fn at(self, time: u64, format: FrameFormat) -> (p: Position)
        ensures
            p == self.spec_at(time, format),
    {
        let d = time as i128 - self.time_ns as i128;
        let e: i64 = if d < i64::MIN as i128 {
            i64::MIN
        } else if d > i64::MAX as i128 {
            i64::MAX
        } else {
            d as i64
        };
        self.position.advance(e, format, self.rate)
    }

    pub open spec fn wire_spec(self) -> wire::Anchor {
        wire::Anchor {
            time_ns: self.time_ns,
            position: Some(
                wire::Position { frames: self.position.frames, subframe: self.position.subframe },
            ),
            rate: Some(
                wire::Rate {
                    numerator: self.rate.spec_numerator(),
                    denominator: self.rate.spec_denominator(),
                },
            ),
        }
    }

    pub fn wire(self) -> (w: wire::Anchor)
        ensures
            w == self.wire_spec(),
    {
        wire::Anchor {
            time_ns: self.time_ns,
            position: Some(
                wire::Position { frames: self.position.frames, subframe: self.position.subframe },
            ),
            rate: Some(
                wire::Rate {
                    numerator: self.rate.numerator(),
                    denominator: self.rate.denominator(),
                },
            ),
        }
    }

    /// This anchor is what `from_wire` makes of `w`.
    pub open spec fn describes(self, w: wire::Anchor) -> bool {
        &&& w.position is Some
        &&& w.rate is Some
        &&& self.time_ns == w.time_ns
        &&& self.position == Position {
            frames: w.position.unwrap().frames,
            subframe: w.position.unwrap().subframe,
        }
        &&& self.rate.spec_numerator() * rate_gcd(
            w.rate.unwrap().numerator as int,
            w.rate.unwrap().denominator as int,
        ) == w.rate.unwrap().numerator
        &&& self.rate.spec_denominator() * rate_gcd(
            w.rate.unwrap().numerator as int,
            w.rate.unwrap().denominator as int,
        ) == w.rate.unwrap().denominator
    }

    fn from_wire(a: &wire::Anchor) -> (r: Result<Self, Error>)
        requires
            crate::anchor_error(*a) is None,
        ensures
            r matches Ok(x) && x.describes(*a),
    {
        let p = a.position.unwrap();
        let w = a.rate.unwrap();
        let rate = match Rate::new(w.numerator, w.denominator) {
            Ok(rate) => rate,
            Err(e) => return Err(e),
        };
        Ok(Anchor {
            time_ns: a.time_ns,
            position: Position { frames: p.frames, subframe: p.subframe },
            rate,
        })
    }
}

impl Default for Anchor {
    fn default() -> (a: Self)
        ensures
            default_anchor(a),
    {
        Anchor { time_ns: 0, position: Position::zero(), rate: Rate::paused() }
    }
}

impl Default for Scheduled {
    fn default() -> (s: Self)
        ensures
            s.discontinuity == 0,
            default_anchor(s.anchor),
    {
        Scheduled { discontinuity: 0, anchor: Anchor::default() }
    }
}

impl Default for Timeline {
    /// An unpublished generated timeline: session and revision zero, 30 fps, paused at
    /// frame zero, healthy, nothing scheduled.
    fn default() -> (t: Self)
        ensures
            t.session@ == Seq::new(16, |i: int| 0u8),
            t.revision == 0,
            t.discontinuity == 0,
            t.format.spec_numerator() == 30 && t.format.spec_denominator() == 1
                && !t.format.spec_drop_frame(),
            default_anchor(t.anchor),
            t.source_kind == SourceKind::Generated,
            t.source_health == SourceHealth::Healthy,
            t.scheduled_len == 0,
            forall|i: int|
                0 <= i < 4 ==> (#[trigger] t.scheduled@[i]).discontinuity == 0 && default_anchor(
                    t.scheduled@[i].anchor,
                ),
    {
        let blank = Scheduled::default();
        let t = Timeline {
            session: [0u8; 16],
            revision: 0,
            discontinuity: 0,
            format: FrameFormat::default(),
            anchor: Anchor::default(),
            source_kind: SourceKind::Generated,
            source_health: SourceHealth::Healthy,
            scheduled: [blank; 4],
            scheduled_len: 0,
        };
        assert(t.session@ =~= Seq::new(16, |i: int| 0u8));
        t
    }
}

/// Number of leading entries among the first `len` of `s`, starting at `i`, whose
/// discontinuity is at most `d`, plus `i`.
pub open spec fn first_kept(s: Seq<Scheduled>, len: nat, d: u64, i: nat) -> nat
    decreases len - i,
{
    if i < len && s[i as int].discontinuity <= d {
        first_kept(s, len, d, i + 1)
    } else {
        i
    }
}

/// `u` is `t` after `latch(discontinuity)`: the leading scheduled changes whose
/// discontinuity is at most `discontinuity` have been applied, in order.
pub open spec fn latched(t: Timeline, u: Timeline, discontinuity: u64) -> bool {
    let k = first_kept(t.scheduled@, t.scheduled_len as nat, discontinuity, 0);
    &&& u.scheduled_len == t.scheduled_len - k
    &&& u.scheduled@ == t.scheduled@.skip(k as int) + t.scheduled@.take(k as int)
    &&& k > 0 ==> u.anchor == t.scheduled@[k - 1].anchor && u.discontinuity
        == t.scheduled@[k - 1].discontinuity
    &&& k == 0 ==> u.anchor == t.anchor && u.discontinuity == t.discontinuity
    &&& u.session == t.session
    &&& u.revision == t.revision
    &&& u.format == t.format
    &&& u.source_kind == t.source_kind
    &&& u.source_health == t.source_health
}

/// The discontinuity in force after `latch(discontinuity)`.
pub open spec fn latched_discontinuity(t: Timeline, discontinuity: u64) -> u64 {
    let k = first_kept(t.scheduled@, t.scheduled_len as nat, discontinuity, 0);
    if k > 0 {
        t.scheduled@[k - 1].discontinuity
    } else {
        t.discontinuity
    }
}

pub open spec fn source_kind_code(k: SourceKind) -> i32 {
    match k {
        SourceKind::Generated => 1,
        SourceKind::External => 2,
    }
}

pub open spec fn source_health_code(h: SourceHealth) -> i32 {
    match h {
        SourceHealth::Healthy => 1,
        SourceHealth::Degraded => 2,
    }
}

impl Timeline {
    /// The trajectory and discontinuity in force at leader time `time` after considering
    /// the first `i` scheduled entries.
    pub open spec fn active_upto(self, time: u64, i: nat) -> (Anchor, u64)
        decreases i,
    {
        if i == 0 {
            (self.anchor, self.discontinuity)
        } else {
            let s = self.scheduled@[i - 1];
            if s.anchor.time_ns <= time {
                (s.anchor, s.discontinuity)
            } else {
                self.active_upto(time, (i - 1) as nat)
            }
        }
    }

    pub open spec fn spec_at(self, time: u64) -> (Position, Rate, u64) {
        let (a, d) = self.active_upto(time, self.scheduled_len as nat);
        (a.spec_at(time, self.format), a.rate, d)
    }

    /// Evaluates the timeline at leader time `time`, applying every scheduled change whose
    /// time has come. Returns the position, the rate and the discontinuity in force.
    pub fn at(&self, time: u64) -> (r: (Position, Rate, u64))
        requires
            self.scheduled_len <= 4,
        ensures
            r == self.spec_at(time),
    {
        let mut a = self.anchor;
        let mut d = self.discontinuity;
        let mut i: usize = 0;
        while i < self.scheduled_len
            invariant
                i <= self.scheduled_len <= 4,
                (a, d) == self.active_upto(time, i as nat),
            decreases self.scheduled_len - i,
        {
            let s = self.scheduled[i];
            if s.anchor.time_ns <= time {
                a = s.anchor;
                d = s.discontinuity;
            }
            i = i + 1;
        }
        (a.at(time, self.format), a.rate, d)
    }

    /// Applies, in order, the scheduled changes whose discontinuity is at most `discontinuity`.
    pub fn latch(&mut self, discontinuity: u64)
        requires
            old(self).scheduled_len <= 4,
        ensures
            latched(*old(self), *final(self), discontinuity),
            // From the last latched entry on, the timeline shows what it showed before.
            forall|time: u64|
                (first_kept(old(self).scheduled@, old(self).scheduled_len as nat, discontinuity, 0) > 0
                    ==> time >= old(self).scheduled@[first_kept(
                    old(self).scheduled@,
                    old(self).scheduled_len as nat,
                    discontinuity,
                    0,
                ) - 1].anchor.time_ns) ==> #[trigger] final(self).spec_at(time) == old(self).spec_at(time),
    {
        let ghost s0 = self.scheduled@;
        let ghost len0 = self.scheduled_len as nat;
        let ghost a0 = self.anchor;
        let ghost d0 = self.discontinuity;
        let mut k: usize = 0;
        assert(s0.skip(0) + s0.take(0) =~= s0);
        while self.scheduled_len > 0 && self.scheduled[0].discontinuity <= discontinuity
            invariant
                k <= len0 <= 4,
                self.scheduled_len == len0 - k,
                self.scheduled@ == s0.skip(k as int) + s0.take(k as int),
                s0 == old(self).scheduled@,
                len0 == old(self).scheduled_len,
                first_kept(s0, len0, discontinuity, 0) == first_kept(
                    s0,
                    len0,
                    discontinuity,
                    k as nat,
                ),
                k > 0 ==> self.anchor == s0[k - 1].anchor && self.discontinuity == s0[k
                    - 1].discontinuity,
                k == 0 ==> self.anchor == old(self).anchor && self.discontinuity == old(
                    self,
                ).discontinuity,
                self.session == old(self).session,
                self.revision == old(self).revision,
                self.format == old(self).format,
                self.source_kind == old(self).source_kind,
                self.source_health == old(self).source_health,
            decreases self.scheduled_len,
        {
            let next = self.scheduled[0];
            assert(next == s0[k as int]);
            self.anchor = next.anchor;
            self.discontinuity = next.discontinuity;
            rotate_left_one(&mut self.scheduled);
            self.scheduled_len = self.scheduled_len - 1;
            k = k + 1;
            assert(self.scheduled@ =~= s0.skip(k as int) + s0.take(k as int));
        }
        assert(first_kept(s0, len0, discontinuity, k as nat) == k);
        let ghost t0 = *old(self);
        let ghost u = *self;
        assert forall|time: u64|
            (first_kept(t0.scheduled@, t0.scheduled_len as nat, discontinuity, 0) > 0 ==> time
                >= t0.scheduled@[first_kept(t0.scheduled@, t0.scheduled_len as nat, discontinuity, 0)
                - 1].anchor.time_ns) implies #[trigger] u.spec_at(time) == t0.spec_at(time) by {
            lemma_latch_keeps_timeline(t0, u, discontinuity, time);
        }
    }

    /// Applies, in order, the scheduled changes whose time is at most `now`, as a leader
    /// does on each pass. Returns whether any was applied.
    pub fn apply_due(&mut self, now: u64) -> (applied: bool)
        requires
            old(self).scheduled_len <= 4,
        ensures
            applied == (first_due(old(self).scheduled@, old(self).scheduled_len as nat, now, 0)
                > 0),
            applied_due(*old(self), *final(self), now),
            final(self).session == old(self).session,
            final(self).revision == old(self).revision,
            final(self).format == old(self).format,
            final(self).source_kind == old(self).source_kind,
            final(self).source_health == old(self).source_health,
            publishable(*old(self)) ==> publishable(*final(self)),
            old(self).anchor.time_ns <= now ==> final(self).anchor.time_ns <= now,
    {
        let ghost s0 = self.scheduled@;
        let ghost len0 = self.scheduled_len as nat;
        let mut k: usize = 0;
        assert(s0.skip(0) + s0.take(0) =~= s0);
        while self.scheduled_len > 0 && self.scheduled[0].anchor.time_ns <= now
            invariant
                k <= len0 <= 4,
                self.scheduled_len == len0 - k,
                self.scheduled@ == s0.skip(k as int) + s0.take(k as int),
                s0 == old(self).scheduled@,
                len0 == old(self).scheduled_len,
                first_due(s0, len0, now, 0) == first_due(s0, len0, now, k as nat),
                k > 0 ==> self.anchor.time_ns <= now,
                k > 0 ==> self.anchor == s0[k - 1].anchor && self.discontinuity == s0[k
                    - 1].discontinuity,
                k == 0 ==> self.anchor == old(self).anchor && self.discontinuity == old(
                    self,
                ).discontinuity,
                self.session == old(self).session,
                self.revision == old(self).revision,
                self.format == old(self).format,
                self.source_kind == old(self).source_kind,
                self.source_health == old(self).source_health,
            decreases self.scheduled_len,
        {
            let next = self.scheduled[0];
            assert(next == s0[k as int]);
            self.anchor = next.anchor;
            self.discontinuity = next.discontinuity;
            rotate_left_one(&mut self.scheduled);
            self.scheduled_len = self.scheduled_len - 1;
            k = k + 1;
            assert(self.scheduled@ =~= s0.skip(k as int) + s0.take(k as int));
        }
        assert(first_due(s0, len0, now, k as nat) == k);
        proof {
            if publishable(*old(self)) && k > 0 {
                let t = *old(self);
                let u = *self;
                assert forall|i: int| 0 <= i < u.scheduled_len implies {
                    &&& anchor_publishable((#[trigger] u.scheduled@[i]).anchor)
                    &&& u.scheduled@[i].anchor.time_ns > schedule_floor(u, i).0
                    &&& u.scheduled@[i].discontinuity > schedule_floor(u, i).1
                } by {
                    assert(u.scheduled@[i] == t.scheduled@[i + k]);
                    assert(schedule_floor(u, i) == schedule_floor(t, i + k));
                }
            }
        }
        k > 0
    }

    /// The snapshot that `wire` publishes.
    pub open spec fn wire_spec(self) -> SnapshotModel {
        SnapshotModel {
            version: 1,
            session: self.session@,
            revision: self.revision,
            discontinuity: self.discontinuity,
            source_kind: source_kind_code(self.source_kind),
            source_health: source_health_code(self.source_health),
            format: Some(
                wire::FrameFormat {
                    numerator: self.format.spec_numerator(),
                    denominator: self.format.spec_denominator(),
                    drop_frame: self.format.spec_drop_frame(),
                },
            ),
            anchor: Some(self.anchor.wire_spec()),
            scheduled: Seq::new(
                self.scheduled_len as nat,
                |i: int|
                    wire::ScheduledChange {
                        discontinuity: self.scheduled@[i].discontinuity,
                        anchor: Some(self.scheduled@[i].anchor.wire_spec()),
                    },
            ),
        }
    }

    pub fn wire(&self) -> (s: wire::Snapshot)
        requires
            self.scheduled_len <= 4,
        ensures
            s@ == self.wire_spec(),
    {
        let mut session: Vec<u8> = Vec::new();
        let mut i: usize = 0;
        while i < 16
            invariant
                i <= 16,
                session@ == self.session@.take(i as int),
            decreases 16 - i,
        {
            session.push(self.session[i]);
            i = i + 1;
            assert(session@ =~= self.session@.take(i as int));
        }
        assert(self.session@.take(16) =~= self.session@);
        let mut scheduled: Vec<wire::ScheduledChange> = Vec::new();
        let mut j: usize = 0;
        while j < self.scheduled_len
            invariant
                j <= self.scheduled_len <= 4,
                scheduled@ == self.wire_spec().scheduled.take(j as int),
            decreases self.scheduled_len - j,
        {
            let s = self.scheduled[j];
            scheduled.push(wire::ScheduledChange { discontinuity: s.discontinuity, anchor: Some(s.anchor.wire()) });
            j = j + 1;
            assert(scheduled@ =~= self.wire_spec().scheduled.take(j as int));
        }
        assert(self.wire_spec().scheduled.take(j as int) =~= self.wire_spec().scheduled);
        wire::Snapshot {
            version: 1,
            session,
            revision: self.revision,
            discontinuity: self.discontinuity,
            source_kind: match self.source_kind {
                SourceKind::Generated => 1,
                SourceKind::External => 2,
            },
            source_health: match self.source_health {
                SourceHealth::Healthy => 1,
                SourceHealth::Degraded => 2,
            },
            format: Some(
                wire::FrameFormat {
                    numerator: self.format.numerator(),
                    denominator: self.format.denominator(),
                    drop_frame: self.format.drop_frame(),
                },
            ),
            anchor: Some(self.anchor.wire()),
            scheduled,
        }
    }

    /// `self` is the timeline that `from_wire` makes of the valid snapshot `s`.
    pub open spec fn describes(self, s: SnapshotModel) -> bool {
        &&& s.format is Some
        &&& s.anchor is Some
        &&& self.session@ == s.session
        &&& self.revision == s.revision
        &&& self.discontinuity == s.discontinuity
        &&& self.format.spec_numerator() == s.format.unwrap().numerator
        &&& self.format.spec_denominator() == s.format.unwrap().denominator
        &&& self.format.spec_drop_frame() == s.format.unwrap().drop_frame
        &&& self.anchor.describes(s.anchor.unwrap())
        &&& self.source_kind == (if s.source_kind == 1 {
            SourceKind::Generated
        } else {
            SourceKind::External
        })
        &&& self.source_health == (if s.source_health == 1 {
            SourceHealth::Healthy
        } else {
            SourceHealth::Degraded
        })
        &&& self.scheduled_len == s.scheduled.len()
        &&& forall|i: int|
            0 <= i < s.scheduled.len() ==> {
                &&& (#[trigger] self.scheduled@[i]).discontinuity == s.scheduled[i].discontinuity
                &&& s.scheduled[i].anchor is Some
                &&& self.scheduled@[i].anchor.describes(s.scheduled[i].anchor.unwrap())
            }
        &&& forall|i: int|
            s.scheduled.len() <= i < 4 ==> (#[trigger] self.scheduled@[i]).discontinuity == 0
                && default_anchor(self.scheduled@[i].anchor)
    }

    /// Validates a snapshot and converts it into a timeline.
    pub fn from_wire(s: &wire::Snapshot) -> (r: Result<Self, Error>)
        ensures
            match r {
                Ok(t) => crate::snapshot_error(s@) is None && t.describes(s@),
                Err(e) => crate::snapshot_error(s@) == Some(e),
            },
    {
        match crate::validate_snapshot(s) {
            Ok(_) => {},
            Err(e) => return Err(e),
        }
        let f = s.format.unwrap();
        let format = match FrameFormat::new(f.numerator, f.denominator, f.drop_frame) {
            Ok(format) => format,
            Err(e) => return Err(e),
        };
        let anchor = match Anchor::from_wire(&s.anchor.unwrap()) {
            Ok(a) => a,
            Err(e) => return Err(e),
        };
        let mut session = [0u8; 16];
        let mut i: usize = 0;
        while i < 16
            invariant
                i <= 16,
                s.session@.len() == 16,
                forall|j: int| 0 <= j < i ==> session@[j] == s.session@[j],
            decreases 16 - i,
        {
            session[i] = s.session[i];
            i = i + 1;
        }
        assert(session@ =~= s.session@);
        let blank = Scheduled::default();
        let mut scheduled = [blank; 4];
        let mut j: usize = 0;
        proof {
            lemma_schedule_valid(s@.scheduled, s@.anchor.unwrap().time_ns, s@.discontinuity);
        }
        while j < s.scheduled.len()
            invariant
                j <= s.scheduled@.len() <= 4,
                forall|i: int|
                    #![trigger s.scheduled@[i]]
                    0 <= i < s.scheduled@.len() ==> s.scheduled@[i].anchor is Some
                        && crate::anchor_error(s.scheduled@[i].anchor.unwrap()) is None,
                forall|i: int|
                    0 <= i < j ==> {
                        &&& (#[trigger] scheduled@[i]).discontinuity
                            == s.scheduled@[i].discontinuity
                        &&& scheduled@[i].anchor.describes(s.scheduled@[i].anchor.unwrap())
                    },
                forall|i: int| j <= i < 4 ==> #[trigger] scheduled@[i] == blank,
            decreases s.scheduled.len() - j,
        {
            let c = s.scheduled[j];
            assert(c == s.scheduled@[j as int]);
            let a = match Anchor::from_wire(&c.anchor.unwrap()) {
                Ok(a) => a,
                Err(e) => return Err(e),
            };
            scheduled[j] = Scheduled { discontinuity: c.discontinuity, anchor: a };
            j = j + 1;
        }
        Ok(Timeline {
            session,
            revision: s.revision,
            discontinuity: s.discontinuity,
            format,
            anchor,
            source_kind: if s.source_kind == 1 {
                SourceKind::Generated
            } else {
                SourceKind::External
            },
            source_health: if s.source_health == 1 {
                SourceHealth::Healthy
            } else {
                SourceHealth::Degraded
            },
            scheduled,
            scheduled_len: s.scheduled.len(),
        })
    }
}

/// Number of leading entries among the first `len` of `s`, starting at `i`, whose time is
/// at most `now`, plus `i`.
pub open spec fn first_due(s: Seq<Scheduled>, len: nat, now: u64, i: nat) -> nat
    decreases len - i,
{
    if i < len && s[i as int].anchor.time_ns <= now {
        first_due(s, len, now, i + 1)
    } else {
        i
    }
}

/// `u` is `t` after the scheduled changes due at `now` were applied in order: the last of
/// them gives the trajectory and discontinuity, and they leave the schedule, whose slots
/// rotate.
pub open spec fn applied_due(t: Timeline, u: Timeline, now: u64) -> bool {
    let k = first_due(t.scheduled@, t.scheduled_len as nat, now, 0);
    &&& u.scheduled_len == t.scheduled_len - k
    &&& u.scheduled@ == t.scheduled@.skip(k as int) + t.scheduled@.take(k as int)
    &&& k > 0 ==> u.anchor == t.scheduled@[k - 1].anchor && u.discontinuity
        == t.scheduled@[k - 1].discontinuity
    &&& k == 0 ==> u.anchor == t.anchor && u.discontinuity == t.discontinuity
}

/// The largest discontinuity a timeline has used or reserved.
pub open spec fn reserved_discontinuity(t: Timeline) -> u64 {
    if t.scheduled_len > 0 && t.scheduled@[t.scheduled_len - 1].discontinuity > t.discontinuity {
        t.scheduled@[t.scheduled_len - 1].discontinuity
    } else {
        t.discontinuity
    }
}

/// Scheduled changes come in strictly increasing time and discontinuity order, each above
/// the current discontinuity.
pub open spec fn schedule_ordered(t: Timeline) -> bool {
    &&& t.scheduled_len <= 4
    &&& forall|i: int|
        0 <= i < t.scheduled_len ==> (#[trigger] t.scheduled@[i]).discontinuity > t.discontinuity
    &&& forall|i: int, j: int|
        0 <= i < j < t.scheduled_len ==> (#[trigger] t.scheduled@[i]).discontinuity < (
        #[trigger] t.scheduled@[j]).discontinuity && t.scheduled@[i].anchor.time_ns
            < t.scheduled@[j].anchor.time_ns
}

/// The position and rate that a change sets, given those in force.
pub open spec fn changed_trajectory(change: Change, p: Position, r: Rate) -> (Position, Rate) {
    match change {
        Change::Rate(rate) => (p, rate),
        Change::Seek(position) => (position, r),
        Change::Transport(position, rate) => (position, rate),
    }
}

/// The effective time of a change.
pub open spec fn change_time(effective: Option<u64>, now: u64) -> u64 {
    match effective {
        Some(t) => t,
        None => now,
    }
}

/// Whether `change_timeline` refuses the change, and with which error.
pub open spec fn change_error(t: Timeline, effective: Option<u64>, now: u64) -> Option<Error> {
    let time = change_time(effective, now);
    if time > i64::MAX {
        Some(Error::Invalid("scheduled timestamp"))
    } else if time > now && (t.scheduled_len == 4 || (t.scheduled_len > 0 && time
        <= t.scheduled@[t.scheduled_len - 1].anchor.time_ns)) {
        Some(Error::Invalid("schedule full or non-increasing"))
    } else {
        None
    }
}

/// What `change_timeline` makes of `t` when it accepts the change: `u`.
pub open spec fn changed(t: Timeline, u: Timeline, change: Change, effective: Option<u64>, now: u64) -> bool {
    let time = change_time(effective, now);
    let (p, rate, d) = t.spec_at(time);
    let (p2, r2) = changed_trajectory(change, p, rate);
    let anchor = Anchor { time_ns: time, position: p2, rate: r2 };
    let next = (if d > reserved_discontinuity(t) {
        d
    } else {
        reserved_discontinuity(t)
    }) + 1;
    &&& u.session == t.session && u.revision == t.revision
    &&& u.format == t.format && u.source_kind == t.source_kind
    &&& u.source_health == t.source_health
    &&& if time > now {
        &&& u.scheduled@ == t.scheduled@.update(
            t.scheduled_len as int,
            Scheduled { discontinuity: next as u64, anchor },
        )
        &&& u.scheduled_len == t.scheduled_len + 1
        &&& u.anchor == t.anchor
        &&& u.discontinuity == t.discontinuity
    } else {
        &&& u.anchor == anchor
        &&& u.discontinuity == next
        &&& u.scheduled_len == 0
        &&& u.scheduled == t.scheduled
    }
}

/// Every rate a change carries is in range and in lowest terms.
pub open spec fn change_wf(c: Change) -> bool {
    match c {
        Change::Rate(r) => r.wf(),
        Change::Seek(_) => true,
        Change::Transport(_, r) => r.wf(),
    }
}

/// Applies a transport change now or at a later leader time. A future change is appended
/// to the schedule; a present or past one replaces the trajectory (extrapolated to that
/// time) and cancels the schedule. Either way it gets a discontinuity above all used ones.
pub fn change_timeline(t: &mut Timeline, change: Change, effective: Option<u64>, now: u64) -> (r:
    Result<(), Error>)
    requires
        old(t).scheduled_len <= 4,
        discontinuities_below_max(*old(t)),
    ensures
        match change_error(*old(t), effective, now) {
            Some(e) => r == Err::<(), Error>(e) && *final(t) == *old(t),
            None => r is Ok && changed(*old(t), *final(t), change, effective, now),
        },
        // At its effective time the change shows what it sets, and keeps what it does not.
        r is Ok ==> ({
            let time = change_time(effective, now);
            let before = old(t).spec_at(time);
            let after = final(t).spec_at(time);
            match change {
                Change::Rate(x) => after.0 == before.0 && after.1 == x,
                Change::Seek(p) => after.0 == p && after.1 == before.1,
                Change::Transport(p, x) => after.0 == p && after.1 == x,
            }
        }),
{
    let ghost t0 = *t;
    let time = match effective {
        Some(x) => x,
        None => now,
    };
    if time > i64::MAX as u64 {
        return Err(Error::Invalid("scheduled timestamp"));
    }
    let scheduled = time > now;
    let len = t.scheduled_len;
    if scheduled && (len == 4 || (len > 0 && time <= t.scheduled[len - 1].anchor.time_ns)) {
        return Err(Error::Invalid("schedule full or non-increasing"));
    }
    let (position, rate, disc) = t.at(time);
    proof {
        lemma_active_discontinuity(*t, time, t.scheduled_len as nat);
    }
    // Reading these establishes that the rates and the format are well formed.
    let _rate_num: i32 = rate.numerator();
    let _format_num: u32 = t.format.numerator();
    match change {
        Change::Rate(x) => {
            let _num: i32 = x.numerator();
        },
        Change::Transport(_, x) => {
            let _num: i32 = x.numerator();
        },
        Change::Seek(_) => {},
    }
    let (position, rate) = match change {
        Change::Rate(r) => (position, r),
        Change::Seek(p) => (p, rate),
        Change::Transport(p, r) => (p, r),
    };
    let anchor = Anchor { time_ns: time, position, rate };
    let mut reserved = t.discontinuity;
    if len > 0 && t.scheduled[len - 1].discontinuity > reserved {
        reserved = t.scheduled[len - 1].discontinuity;
    }
    let next = if disc > reserved {
        disc
    } else {
        reserved
    } + 1;
    if scheduled {
        t.scheduled[len] = Scheduled { discontinuity: next, anchor };
        t.scheduled_len = len + 1;
    } else {
        t.anchor = anchor;
        t.discontinuity = next;
        t.scheduled_len = 0;
    }
    proof {
        lemma_change_takes_effect(t0, *t, change, effective, now);
    }
    Ok(())
}

/// Every discontinuity the timeline holds leaves room for a larger one.
pub open spec fn discontinuities_below_max(t: Timeline) -> bool {
    &&& t.discontinuity < u64::MAX
    &&& forall|i: int|
        0 <= i < t.scheduled_len && i < 4 ==> (#[trigger] t.scheduled@[i]).discontinuity
            < u64::MAX
}

/// The discontinuity in force at any time is one the timeline already holds.
proof fn lemma_active_discontinuity(t: Timeline, time: u64, i: nat)
    requires
        discontinuities_below_max(t),
        i <= t.scheduled_len <= 4,
    ensures
        t.active_upto(time, i).1 < u64::MAX,
    decreases i,
{
    if i > 0 {
        lemma_active_discontinuity(t, time, (i - 1) as nat);
        assert(t.scheduled@[i - 1].discontinuity < u64::MAX);
    }
}

/// Changes keep the schedule ordered: pending changes stay in strictly increasing time and
/// discontinuity order above the current discontinuity.
pub proof fn lemma_change_keeps_order(
    t: Timeline,
    u: Timeline,
    change: Change,
    effective: Option<u64>,
    now: u64,
)
    requires
        schedule_ordered(t),
        reserved_discontinuity(t) < u64::MAX,
        change_error(t, effective, now) is None,
        change_time(effective, now) > now ==> {
            let time = change_time(effective, now);
            let (p, rate, d) = t.spec_at(time);
            let (p2, r2) = changed_trajectory(change, p, rate);
            let next = (if d > reserved_discontinuity(t) {
                d
            } else {
                reserved_discontinuity(t)
            }) + 1;
            &&& u.scheduled@ == t.scheduled@.update(
                t.scheduled_len as int,
                Scheduled {
                    discontinuity: next as u64,
                    anchor: Anchor { time_ns: time, position: p2, rate: r2 },
                },
            )
            &&& u.scheduled_len == t.scheduled_len + 1
            &&& u.discontinuity == t.discontinuity
        },
        change_time(effective, now) <= now ==> u.scheduled_len == 0,
    ensures
        schedule_ordered(u),
{
    let time = change_time(effective, now);
    if time > now {
        let len = t.scheduled_len as int;
        assert forall|i: int, j: int|
            0 <= i < j < u.scheduled_len implies (#[trigger] u.scheduled@[i]).discontinuity < (
            #[trigger] u.scheduled@[j]).discontinuity && u.scheduled@[i].anchor.time_ns
                < u.scheduled@[j].anchor.time_ns by {
            if j == len && i < len - 1 {
                assert(t.scheduled@[i].discontinuity < t.scheduled@[len - 1].discontinuity);
                assert(t.scheduled@[i].anchor.time_ns < t.scheduled@[len - 1].anchor.time_ns);
            }
        }
        assert forall|i: int| 0 <= i < u.scheduled_len implies (#[trigger] u.scheduled@[i]).discontinuity
            > u.discontinuity by {
            if i < len {
                assert(t.scheduled@[i].discontinuity > t.discontinuity);
            }
        }
    }
}

/// The trajectory in force at any time of a publishable timeline is publishable.
proof fn lemma_active_publishable(t: Timeline, time: u64, i: nat)
    requires
        publishable(t),
        i <= t.scheduled_len,
    ensures
        anchor_publishable(t.active_upto(time, i).0),
    decreases i,
{
    if i > 0 {
        lemma_active_publishable(t, time, (i - 1) as nat);
        assert(anchor_publishable(t.scheduled@[i - 1].anchor));
    }
}

/// A change that a leader accepts keeps its timeline publishable: a timeline whose
/// trajectory starts no later than `now`, changed at `now` with valid rates, can still be
/// published, and its trajectory still starts no later than `now`.
pub proof fn lemma_change_keeps_publishable(
    t: Timeline,
    u: Timeline,
    change: Change,
    effective: Option<u64>,
    now: u64,
)
    requires
        publishable(t),
        discontinuities_below_max(t),
        t.anchor.time_ns <= now,
        change_wf(change),
        change_error(t, effective, now) is None,
        changed(t, u, change, effective, now),
    ensures
        publishable(u),
        u.anchor.time_ns <= now,
{
    let time = change_time(effective, now);
    lemma_active_publishable(t, time, t.scheduled_len as nat);
    lemma_active_discontinuity(t, time, t.scheduled_len as nat);
    let len = t.scheduled_len as int;
    let (p, rate, d) = t.spec_at(time);
    let (p2, r2) = changed_trajectory(change, p, rate);
    assert(r2.wf());
    let next = (if d > reserved_discontinuity(t) {
        d
    } else {
        reserved_discontinuity(t)
    }) + 1;
    assert(next as u64 == next);
    if time > now {
        assert(anchor_publishable(Anchor { time_ns: time, position: p2, rate: r2 }));
        assert(u.scheduled@[len].discontinuity == next);
        assert(u.scheduled@[len].anchor.time_ns == time);
        assert forall|i: int| 0 <= i < u.scheduled_len implies {
            &&& anchor_publishable((#[trigger] u.scheduled@[i]).anchor)
            &&& u.scheduled@[i].anchor.time_ns > schedule_floor(u, i).0
            &&& u.scheduled@[i].discontinuity > schedule_floor(u, i).1
        } by {
            if i < len {
                assert(u.scheduled@[i] == t.scheduled@[i]);
                assert(schedule_floor(u, i) == schedule_floor(t, i));
            } else {
                assert(i == len);
                if len > 0 {
                    assert(schedule_floor(u, i) == schedule_floor(t, len));
                }
            }
        }
    }
}

/// Every change takes a fresh discontinuity, above every one the timeline holds, whether
/// it is applied at once or scheduled.
pub proof fn lemma_change_fresh_discontinuity(
    t: Timeline,
    u: Timeline,
    change: Change,
    effective: Option<u64>,
    now: u64,
)
    requires
        schedule_ordered(t),
        discontinuities_below_max(t),
        change_error(t, effective, now) is None,
        changed(t, u, change, effective, now),
    ensures
        ({
            let fresh = if change_time(effective, now) > now {
                u.scheduled@[t.scheduled_len as int].discontinuity
            } else {
                u.discontinuity
            };
            &&& fresh > t.discontinuity
            &&& forall|i: int|
                0 <= i < t.scheduled_len ==> fresh > (#[trigger] t.scheduled@[i]).discontinuity
        }),
{
    let time = change_time(effective, now);
    lemma_active_discontinuity(t, time, t.scheduled_len as nat);
    let len = t.scheduled_len as int;
    if len > 0 {
        assert forall|i: int| 0 <= i < len implies (#[trigger] t.scheduled@[i]).discontinuity
            <= t.scheduled@[len - 1].discontinuity by {
            if i < len - 1 {
                assert(t.scheduled@[i].discontinuity < t.scheduled@[len - 1].discontinuity);
            }
        }
    }
}

/// An anchor the wire schema can carry.
pub open spec fn anchor_publishable(a: Anchor) -> bool {
    a.time_ns <= i64::MAX && a.rate.wf()
}

/// Time and discontinuity that the `i`-th scheduled entry must exceed.
pub open spec fn schedule_floor(t: Timeline, i: int) -> (u64, u64) {
    if i == 0 {
        (t.anchor.time_ns, t.discontinuity)
    } else {
        (t.scheduled@[i - 1].anchor.time_ns, t.scheduled@[i - 1].discontinuity)
    }
}

/// A timeline whose snapshot followers accept: a published revision, a valid format and
/// rates, timestamps in the clock range, and a schedule strictly increasing in time and
/// discontinuity after the current trajectory.
pub open spec fn publishable(t: Timeline) -> bool {
    &&& t.scheduled_len <= 4
    &&& t.revision != 0
    &&& t.format.wf()
    &&& anchor_publishable(t.anchor)
    &&& forall|i: int|
        0 <= i < t.scheduled_len ==> {
            &&& anchor_publishable((#[trigger] t.scheduled@[i]).anchor)
            &&& t.scheduled@[i].anchor.time_ns > schedule_floor(t, i).0
            &&& t.scheduled@[i].discontinuity > schedule_floor(t, i).1
        }
}

/// Two timelines that agree on everything a snapshot carries.
pub open spec fn same_timeline(t: Timeline, u: Timeline) -> bool {
    &&& t.session == u.session
    &&& t.revision == u.revision
    &&& t.discontinuity == u.discontinuity
    &&& t.format == u.format
    &&& t.anchor == u.anchor
    &&& t.source_kind == u.source_kind
    &&& t.source_health == u.source_health
    &&& t.scheduled_len == u.scheduled_len
    &&& t.scheduled@.take(t.scheduled_len as int) == u.scheduled@.take(u.scheduled_len as int)
}

proof fn lemma_schedule_accepted(t: Timeline, k: int)
    requires
        publishable(t),
        0 <= k <= t.scheduled_len,
    ensures
        crate::schedule_error(
            t.wire_spec().scheduled.skip(k),
            schedule_floor(t, k).0,
            schedule_floor(t, k).1,
        ) is None,
    decreases t.scheduled_len - k,
{
    let l = t.wire_spec().scheduled.skip(k);
    if k < t.scheduled_len {
        lemma_schedule_accepted(t, k + 1);
        assert(l.drop_first() =~= t.wire_spec().scheduled.skip(k + 1));
        let e = t.scheduled@[k];
        assert(anchor_publishable(e.anchor));
        assert(l[0] == wire::ScheduledChange {
            discontinuity: e.discontinuity,
            anchor: Some(e.anchor.wire_spec()),
        });
    }
}

/// A publishable timeline's snapshot passes validation.
pub proof fn lemma_publishable_valid(t: Timeline)
    requires
        publishable(t),
    ensures
        crate::snapshot_error(t.wire_spec()) is None,
{
    lemma_schedule_accepted(t, 0);
    assert(t.wire_spec().scheduled.skip(0) =~= t.wire_spec().scheduled);
}

/// A publishable timeline's snapshot passes validation, and any timeline that
/// `from_wire` makes of it agrees with the published one: what a leader publishes is what a
/// follower reads.
pub proof fn lemma_wire_roundtrip(t: Timeline, u: Timeline)
    requires
        publishable(t),
        u.describes(t.wire_spec()),
    ensures
        crate::snapshot_error(t.wire_spec()) is None,
        same_timeline(t, u),
{
    lemma_schedule_accepted(t, 0);
    assert(t.wire_spec().scheduled.skip(0) =~= t.wire_spec().scheduled);
    assert(u.session@ =~= t.session@);
    assert(u.session == t.session);
    crate::timecode::lemma_format_ext(u.format, t.format);
    lemma_anchor_roundtrip(t.anchor, u.anchor);
    assert forall|i: int| 0 <= i < t.scheduled_len implies t.scheduled@[i] == u.scheduled@[i] by {
        assert(u.scheduled@[i].discontinuity == t.scheduled@[i].discontinuity);
        lemma_anchor_roundtrip(t.scheduled@[i].anchor, u.scheduled@[i].anchor);
    }
    assert(t.scheduled@.take(t.scheduled_len as int) =~= u.scheduled@.take(
        u.scheduled_len as int,
    ));
}

proof fn lemma_anchor_roundtrip(a: Anchor, b: Anchor)
    requires
        anchor_publishable(a),
        b.describes(a.wire_spec()),
    ensures
        a == b,
{
    let n = a.rate.spec_numerator() as int;
    let d = a.rate.spec_denominator() as int;
    assert(rate_gcd(n, d) == 1);
    let w = a.wire_spec();
    assert(w.rate.unwrap().numerator as int == n);
    assert(w.rate.unwrap().denominator as int == d);
    assert(b.rate.spec_numerator() * rate_gcd(n, d) == n);
    assert(b.rate.spec_denominator() * rate_gcd(n, d) == d);
    assert(b.rate.spec_numerator() == n);
    assert(b.rate.spec_denominator() == d);
    crate::timecode::lemma_rate_ext(a.rate, b.rate);
}

/// Every entry of a schedule that passes validation has a valid anchor.
proof fn lemma_schedule_valid(l: Seq<wire::ScheduledChange>, time: u64, disc: u64)
    requires
        crate::schedule_error(l, time, disc) is None,
    ensures
        forall|i: int|
            0 <= i < l.len() ==> (#[trigger] l[i]).anchor is Some && crate::anchor_error(
                l[i].anchor.unwrap(),
            ) is None,
    decreases l.len(),
{
    if l.len() > 0 {
        lemma_schedule_valid(l.drop_first(), l[0].anchor.unwrap().time_ns, l[0].discontinuity);
        assert forall|i: int| 0 <= i < l.len() implies (#[trigger] l[i]).anchor is Some
            && crate::anchor_error(l[i].anchor.unwrap()) is None by {
            if i > 0 {
                assert(l[i] == l.drop_first()[i - 1]);
            }
        }
    }
}

fn rotate_left_one(a: &mut [Scheduled; 4])
    ensures
        final(a)@ == old(a)@.skip(1).push(old(a)@[0]),
{
    let first = a[0];
    a[0] = a[1];
    a[1] = a[2];
    a[2] = a[3];
    a[3] = first;
    assert(final(a)@ =~= old(a)@.skip(1).push(old(a)@[0]));
}

/// Checked local timestamp for predicted presentation; delays must be nonnegative.
pub fn presentation_time(local: u64, compensation_delay_ns: u64) -> (r: Result<u64, Error>)
    ensures
        match r {
            Ok(t) => t == local + compensation_delay_ns && t <= i64::MAX,
            Err(e) => local + compensation_delay_ns > i64::MAX && e == Error::Invalid(
                "presentation timestamp exceeds supported clock range",
            ),
        },
{
    match local.checked_add(compensation_delay_ns) {
        Some(at) => if at <= i64::MAX as u64 {
            Ok(at)
        } else {
            Err(Error::Invalid("presentation timestamp exceeds supported clock range"))
        },
        None => Err(Error::Invalid("presentation timestamp exceeds supported clock range")),
    }
}

/// How many of the first `i` scheduled entries are due by leader time `time`.
pub open spec fn due_count(t: Timeline, time: u64, i: nat) -> nat
    decreases i,
{
    if i == 0 {
        0
    } else {
        due_count(t, time, (i - 1) as nat) + (if t.scheduled@[i - 1].anchor.time_ns <= time {
            1nat
        } else {
            0nat
        })
    }
}

/// Every entry before a due one is due too, since the schedule's times increase.
proof fn lemma_all_due_before(t: Timeline, time: u64, m: int, i: nat)
    requires
        schedule_ordered(t),
        0 <= m < t.scheduled_len,
        t.scheduled@[m].anchor.time_ns <= time,
        i <= m + 1,
    ensures
        due_count(t, time, i) == i,
    decreases i,
{
    if i > 0 {
        lemma_all_due_before(t, time, m, (i - 1) as nat);
        if i - 1 < m {
            assert(t.scheduled@[i - 1].anchor.time_ns < t.scheduled@[m].anchor.time_ns);
        }
    }
}

proof fn lemma_due_count_prefix(t: Timeline, time: u64, i: nat)
    requires
        schedule_ordered(t),
        i <= t.scheduled_len,
    ensures
        due_count(t, time, i) <= i,
        t.active_upto(time, i) == (if due_count(t, time, i) == 0 {
            (t.anchor, t.discontinuity)
        } else {
            (
                t.scheduled@[due_count(t, time, i) - 1].anchor,
                t.scheduled@[due_count(t, time, i) - 1].discontinuity,
            )
        }),
    decreases i,
{
    if i > 0 {
        lemma_due_count_prefix(t, time, (i - 1) as nat);
        if t.scheduled@[i - 1].anchor.time_ns <= time {
            lemma_all_due_before(t, time, i - 1, i);
        }
    }
}

/// The timeline in force at a time is the latest due scheduled entry, or the base when
/// none is due: with `k` entries due by `time`, `at(time)` evaluates the `k`-th entry's
/// anchor and reports its discontinuity.
pub proof fn lemma_at_latest_due(t: Timeline, time: u64)
    requires
        schedule_ordered(t),
    ensures
        ({
            let k = due_count(t, time, t.scheduled_len as nat);
            let (a, d) = if k == 0 {
                (t.anchor, t.discontinuity)
            } else {
                (t.scheduled@[k - 1].anchor, t.scheduled@[k - 1].discontinuity)
            };
            &&& k <= t.scheduled_len
            &&& t.spec_at(time) == (a.spec_at(time, t.format), a.rate, d)
        }),
{
    lemma_due_count_prefix(t, time, t.scheduled_len as nat);
}

/// Before the `n`-th scheduled entry, the discontinuity in force is below that entry's.
proof fn lemma_active_below_next(t: Timeline, time: u64, i: nat, n: int)
    requires
        schedule_ordered(t),
        i <= n < t.scheduled_len,
    ensures
        t.active_upto(time, i).1 < t.scheduled@[n].discontinuity,
    decreases i,
{
    if i > 0 {
        lemma_active_below_next(t, time, (i - 1) as nat, n);
        if i - 1 < n {
            assert(t.scheduled@[i - 1].discontinuity < t.scheduled@[n].discontinuity);
        }
    }
}

proof fn lemma_active_monotone(t: Timeline, time1: u64, time2: u64, i: nat)
    requires
        schedule_ordered(t),
        i <= t.scheduled_len,
        time1 <= time2,
    ensures
        t.active_upto(time1, i).1 <= t.active_upto(time2, i).1,
    decreases i,
{
    if i > 0 {
        lemma_active_monotone(t, time1, time2, (i - 1) as nat);
        let s = t.scheduled@[i - 1];
        if time1 < s.anchor.time_ns && s.anchor.time_ns <= time2 {
            lemma_active_below_next(t, time1, (i - 1) as nat, i - 1);
        }
    }
}

/// The discontinuity a timeline reports never decreases as leader time goes on.
pub proof fn lemma_at_discontinuity_monotone(t: Timeline, time1: u64, time2: u64)
    requires
        schedule_ordered(t),
        time1 <= time2,
    ensures
        t.spec_at(time1).2 <= t.spec_at(time2).2,
{
    lemma_active_monotone(t, time1, time2, t.scheduled_len as nat);
}

/// A schedule that passes validation rises strictly in time and discontinuity, from
/// above the time and discontinuity it follows.
proof fn lemma_schedule_order(l: Seq<wire::ScheduledChange>, time: u64, disc: u64)
    requires
        crate::schedule_error(l, time, disc) is None,
    ensures
        forall|i: int|
            0 <= i < l.len() ==> (#[trigger] l[i]).discontinuity > disc && l[i].anchor is Some
                && l[i].anchor.unwrap().time_ns > time,
        forall|i: int, j: int|
            0 <= i < j < l.len() ==> (#[trigger] l[i]).discontinuity < (#[trigger] l[j]).discontinuity
                && l[i].anchor.unwrap().time_ns < l[j].anchor.unwrap().time_ns,
    decreases l.len(),
{
    if l.len() > 0 {
        let c = l[0];
        let rest = l.drop_first();
        lemma_schedule_order(rest, c.anchor.unwrap().time_ns, c.discontinuity);
        assert forall|i: int| 0 <= i < l.len() implies (#[trigger] l[i]).discontinuity > disc
            && l[i].anchor is Some && l[i].anchor.unwrap().time_ns > time by {
            if i > 0 {
                assert(l[i] == rest[i - 1]);
            }
        }
        assert forall|i: int, j: int| 0 <= i < j < l.len() implies (#[trigger] l[i]).discontinuity < (
        #[trigger] l[j]).discontinuity && l[i].anchor.unwrap().time_ns
            < l[j].anchor.unwrap().time_ns by {
            assert(l[j] == rest[j - 1]);
            if i > 0 {
                assert(l[i] == rest[i - 1]);
            }
        }
    }
}

/// A timeline made from a valid snapshot keeps its schedule in order.
pub proof fn lemma_valid_snapshot_ordered(t: Timeline, s: SnapshotModel)
    requires
        crate::snapshot_error(s) is None,
        t.describes(s),
    ensures
        schedule_ordered(t),
{
    lemma_schedule_order(s.scheduled, s.anchor.unwrap().time_ns, s.discontinuity);
    assert forall|i: int| 0 <= i < t.scheduled_len implies (#[trigger] t.scheduled@[i]).discontinuity
        > t.discontinuity by {
        assert(s.scheduled[i].discontinuity > s.discontinuity);
    }
    assert forall|i: int, j: int| 0 <= i < j < t.scheduled_len implies (
    #[trigger] t.scheduled@[i]).discontinuity < (#[trigger] t.scheduled@[j]).discontinuity
        && t.scheduled@[i].anchor.time_ns < t.scheduled@[j].anchor.time_ns by {
        assert(s.scheduled[i].discontinuity < s.scheduled[j].discontinuity);
        assert(t.scheduled@[i].anchor.describes(s.scheduled[i].anchor.unwrap()));
        assert(t.scheduled@[j].anchor.describes(s.scheduled[j].anchor.unwrap()));
    }
}

proof fn lemma_first_kept_bounds(s: Seq<Scheduled>, len: nat, d: u64, i: nat)
    requires
        i <= len,
    ensures
        i <= first_kept(s, len, d, i) <= len,
    decreases len - i,
{
    if i < len && s[i as int].discontinuity <= d {
        lemma_first_kept_bounds(s, len, d, i + 1);
    }
}

/// Latching keeps a schedule in order: the changes left are still pending in order, above
/// the discontinuity now in force.
pub proof fn lemma_latched_ordered(t: Timeline, u: Timeline, discontinuity: u64)
    requires
        schedule_ordered(t),
        latched(t, u, discontinuity),
    ensures
        schedule_ordered(u),
{
    let k = first_kept(t.scheduled@, t.scheduled_len as nat, discontinuity, 0);
    lemma_first_kept_bounds(t.scheduled@, t.scheduled_len as nat, discontinuity, 0);
    assert forall|i: int| 0 <= i < u.scheduled_len implies (#[trigger] u.scheduled@[i]).discontinuity
        > u.discontinuity by {
        assert(u.scheduled@[i] == t.scheduled@[i + k]);
        if k > 0 {
            assert(t.scheduled@[k - 1].discontinuity < t.scheduled@[i + k].discontinuity);
        }
    }
    assert forall|i: int, j: int| 0 <= i < j < u.scheduled_len implies (
    #[trigger] u.scheduled@[i]).discontinuity < (#[trigger] u.scheduled@[j]).discontinuity
        && u.scheduled@[i].anchor.time_ns < u.scheduled@[j].anchor.time_ns by {
        assert(u.scheduled@[i] == t.scheduled@[i + k]);
        assert(u.scheduled@[j] == t.scheduled@[j + k]);
    }
}

/// At every time, the discontinuity in force is at least the timeline's own.
pub proof fn lemma_at_at_least_base(t: Timeline, time: u64)
    requires
        schedule_ordered(t),
    ensures
        t.spec_at(time).2 >= t.discontinuity,
{
    lemma_at_latest_due(t, time);
}

/// A trajectory evaluated at its own anchor time shows its anchor position.
pub proof fn lemma_anchor_at_own_time(a: Anchor, format: FrameFormat)
    requires
        format.wf(),
        a.rate.wf(),
    ensures
        a.spec_at(a.time_ns, format) == a.position,
{
    assert(clamp_i64(a.time_ns - a.time_ns) == 0);
    crate::timecode::lemma_advance_zero(a.position, format, a.rate);
}

/// A transport change takes effect at its time without moving what it does not set: at
/// the change's effective time the new timeline shows, for a rate change (play, pause,
/// speed), the position the old one showed then at the new rate; for a seek, the new
/// position at the rate in force; for a full transport change, both given values.
pub proof fn lemma_change_takes_effect(t: Timeline, u: Timeline, change: Change, effective: Option<u64>, now: u64)
    requires
        t.scheduled_len <= 4,
        change_error(t, effective, now) is None,
        changed(t, u, change, effective, now),
        t.format.wf(),
        change_wf(change),
        t.spec_at(change_time(effective, now)).1.wf(),
    ensures
        ({
            let time = change_time(effective, now);
            let before = t.spec_at(time);
            let after = u.spec_at(time);
            match change {
                Change::Rate(r) => after.0 == before.0 && after.1 == r,
                Change::Seek(p) => after.0 == p && after.1 == before.1,
                Change::Transport(p, r) => after.0 == p && after.1 == r,
            }
        }),
{
    let time = change_time(effective, now);
    let (p, rate, d) = t.spec_at(time);
    let (p2, r2) = changed_trajectory(change, p, rate);
    let anchor = Anchor { time_ns: time, position: p2, rate: r2 };
    assert(r2.wf());
    lemma_anchor_at_own_time(anchor, t.format);
    if time > now {
        let len = t.scheduled_len as int;
        assert(u.scheduled@[len] == Scheduled { discontinuity: u.scheduled@[len].discontinuity, anchor });
        assert(u.active_upto(time, (len + 1) as nat).0 == anchor);
    } else {
        assert(u.active_upto(time, 0).0 == anchor);
    }
}

/// With `k > 0` entries latched, `u` and `t` agree on the first `i` entries after them.
proof fn lemma_latched_active(t: Timeline, u: Timeline, discontinuity: u64, time: u64, i: nat)
    requires
        t.scheduled_len <= 4,
        latched(t, u, discontinuity),
        first_kept(t.scheduled@, t.scheduled_len as nat, discontinuity, 0) > 0,
        time >= t.scheduled@[first_kept(t.scheduled@, t.scheduled_len as nat, discontinuity, 0) - 1].anchor.time_ns,
        i <= u.scheduled_len,
    ensures
        u.active_upto(time, i) == t.active_upto(
            time,
            i + first_kept(t.scheduled@, t.scheduled_len as nat, discontinuity, 0),
        ),
    decreases i,
{
    let k = first_kept(t.scheduled@, t.scheduled_len as nat, discontinuity, 0);
    lemma_first_kept_bounds(t.scheduled@, t.scheduled_len as nat, discontinuity, 0);
    if i > 0 {
        lemma_latched_active(t, u, discontinuity, time, (i - 1) as nat);
        assert(u.scheduled@[i - 1] == t.scheduled@[i - 1 + k]);
    }
}

/// Latching the entries a follower has reached changes nothing it shows from then on:
/// from the time of the last latched entry (at every time when none is latched) the
/// latched timeline evaluates exactly as the original one.
pub proof fn lemma_latch_keeps_timeline(t: Timeline, u: Timeline, discontinuity: u64, time: u64)
    requires
        t.scheduled_len <= 4,
        latched(t, u, discontinuity),
        ({
            let k = first_kept(t.scheduled@, t.scheduled_len as nat, discontinuity, 0);
            k > 0 ==> time >= t.scheduled@[k - 1].anchor.time_ns
        }),
    ensures
        u.spec_at(time) == t.spec_at(time),
{
    let k = first_kept(t.scheduled@, t.scheduled_len as nat, discontinuity, 0);
    lemma_first_kept_bounds(t.scheduled@, t.scheduled_len as nat, discontinuity, 0);
    if k > 0 {
        lemma_latched_active(t, u, discontinuity, time, u.scheduled_len as nat);
    } else {
        assert(u.scheduled@ =~= t.scheduled@);
        lemma_same_active(t, u, time, t.scheduled_len as nat);
    }
}

proof fn lemma_same_active(t: Timeline, u: Timeline, time: u64, i: nat)
    requires
        u.anchor == t.anchor,
        u.discontinuity == t.discontinuity,
        u.scheduled@ == t.scheduled@,
    ensures
        u.active_upto(time, i) == t.active_upto(time, i),
    decreases i,
{
    if i > 0 {
        lemma_same_active(t, u, time, (i - 1) as nat);
    }
}

} // verus!
