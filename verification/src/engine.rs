//! Decisions of the engine's leader and follower jobs. Every time is a reading of the
//! engine's monotonic clock in nanoseconds; the jobs perform the I/O and hand the values
//! they observed to these functions.
use vstd::prelude::*;

use crate::config::Timing;
use crate::probes::{lemma_probe_size, lemma_request_reply, probes_wf, reply_spec, request_spec};
use crate::clock::{Exchange, MAX_EXCHANGE_NS};
use crate::timeline::{publishable, Anchor, SourceHealth, SourceKind, SyncState, Timeline};
use crate::wire::{encode_probe_spec, encode_snapshot_spec, Probe};
use crate::{decode_probe, decode_probe_result, encode, Error, FrameFormat, Position, Rate};

verus! {

/// What a leader answers to the probe request `request`, stamped with its arrival `t2`
/// and departure `t3`.
pub open spec fn answer_spec(request: Seq<u8>, t2: u64, t3: u64) -> Result<Seq<u8>, Error> {
    match decode_probe_result(request) {
        Err(e) => Err(e),
        Ok(p) => if p.t2 != 0 || p.t3 != 0 {
            Err(Error::Invalid("probe request includes reply timestamps"))
        } else {
            Ok(encode_probe_spec(Probe { t2, t3, ..p }))
        },
    }
}

/// A leader's reply to a follower's probe request: the request with the leader's receive
/// and send timestamps filled in.
pub fn answer_probe(request: &[u8], t2: u64, t3: u64) -> (r: Result<Vec<u8>, Error>)
    ensures
        match r {
            Ok(bytes) => answer_spec(request@, t2, t3) == Ok::<Seq<u8>, Error>(bytes@),
            Err(e) => answer_spec(request@, t2, t3) == Err::<Seq<u8>, Error>(e),
        },
{
    let mut p = match decode_probe(request) {
        Ok(p) => p,
        Err(e) => return Err(e),
    };
    if p.t2 != 0 || p.t3 != 0 {
        return Err(Error::Invalid("probe request includes reply timestamps"));
    }
    p.t2 = t2;
    p.t3 = t3;
    proof {
        lemma_probe_size(p);
    }
    encode(&p)
}

/// A leader answers every request a follower sends: stamped with `0 < t2 <= t3` and
/// received back within the exchange limit after a residence no longer than the round
/// trip, the answer is accepted by the follower and yields the four timestamps.
pub proof fn lemma_answer_accepted(m: crate::probes::ProbesModel, now: u64, t2: u64, t3: u64, later: u64)
    requires
        probes_wf(m),
        request_spec(m, now).1 is Ok,
        0 < t2 <= t3 <= i64::MAX,
        now <= later,
        t3 - t2 <= later - now,
        later - now <= MAX_EXCHANGE_NS,
    ensures
        ({
            let (m1, request) = request_spec(m, now);
            let answer = answer_spec(request->Ok_0, t2, t3);
            &&& answer is Ok
            &&& reply_spec(m1, answer->Ok_0, later).1 == Ok::<Option<Exchange>, Error>(
                Some(Exchange { t1: now, t2, t3, t4: later }),
            )
        }),
{
    let m1 = request_spec(m, now).0;
    let q = crate::probes::request_probe(m1.sequence, now);
    crate::wire::lemma_probe_roundtrip(q);
    lemma_probe_size(q);
    assert(decode_probe_result(encode_probe_spec(q)) == Ok::<Probe, Error>(q));
    assert(Probe { t2, t3, ..q } == Probe { version: 1, sequence: m1.sequence, t1: now, t2, t3 });
    lemma_request_reply(m, now, t2, t3, later);
}

/// The timeline a leader starts with: a fresh session at revision 1, the configured
/// trajectory anchored at `now`, nothing scheduled, and an external source reported
/// degraded until its first sample.
pub fn leader_timeline(
    session: [u8; 16],
    format: FrameFormat,
    now: u64,
    position: Position,
    rate: Rate,
    source_kind: SourceKind,
) -> (t: Timeline)
    ensures
        t.session == session,
        t.revision == 1,
        t.discontinuity == 0,
        t.format == format,
        t.anchor == (Anchor { time_ns: now, position, rate }),
        t.source_kind == source_kind,
        t.source_health == (if source_kind == SourceKind::External {
            SourceHealth::Degraded
        } else {
            SourceHealth::Healthy
        }),
        t.scheduled_len == 0,
        now <= i64::MAX ==> publishable(t),
{
    let _ = format.numerator();
    let _ = rate.numerator();
    let base = Timeline::default();
    Timeline {
        session,
        revision: 1,
        format,
        anchor: Anchor { time_ns: now, position, rate },
        source_kind,
        source_health: match source_kind {
            SourceKind::External => SourceHealth::Degraded,
            SourceKind::Generated => SourceHealth::Healthy,
        },
        ..base
    }
}

/// The timeline of a leader starting now, under a fresh random session: `leader_timeline`
/// with a version 4 UUID as session.
pub fn start_leader(format: FrameFormat, now: u64, position: Position, rate: Rate, source_kind: SourceKind) -> (t: Timeline)
    ensures
        t.session@[6] / 16 == 4 && t.session@[8] / 64 == 2,
        t.revision == 1,
        t.discontinuity == 0,
        t.format == format,
        t.anchor == (Anchor { time_ns: now, position, rate }),
        t.source_kind == source_kind,
        t.source_health == (if source_kind == SourceKind::External {
            SourceHealth::Degraded
        } else {
            SourceHealth::Healthy
        }),
        t.scheduled_len == 0,
        now <= i64::MAX ==> publishable(t),
{
    leader_timeline(crate::ids::uuid_v4(), format, now, position, rate, source_kind)
}

/// Starts a new revision of the timeline and encodes the snapshot to publish.
pub fn republish(t: &mut Timeline) -> (r: Result<Vec<u8>, Error>)
    requires
        old(t).revision < u64::MAX,
        old(t).scheduled_len <= 4,
    ensures
        *final(t) == (Timeline { revision: (old(t).revision + 1) as u64, ..*old(t) }),
        r matches Ok(bytes) && bytes@ == encode_snapshot_spec(final(t).wire_spec()),
        publishable(*old(t)) ==> publishable(*final(t)),
{
    t.revision = t.revision + 1;
    let s = t.wire();
    proof {
        crate::wire::lemma_snapshot_size(t.wire_spec());
    }
    encode(&s)
}

/// What a leader publishes, a follower reads: the encoded snapshot of a publishable
/// timeline decodes and validates to exactly that snapshot, and the timeline a follower
/// makes of it agrees with the leader's.
pub proof fn lemma_published_snapshot_read(t: Timeline, u: Timeline)
    requires
        publishable(t),
    ensures
        crate::decode_snapshot_result(encode_snapshot_spec(t.wire_spec())) == Ok::<
            crate::wire::SnapshotModel,
            Error,
        >(t.wire_spec()),
        u.describes(t.wire_spec()) ==> crate::timeline::same_timeline(t, u),
{
    crate::wire::lemma_snapshot_roundtrip(t.wire_spec());
    crate::wire::lemma_snapshot_size(t.wire_spec());
    crate::timeline::lemma_publishable_valid(t);
    if u.describes(t.wire_spec()) {
        crate::timeline::lemma_wire_roundtrip(t, u);
    }
}

/// Nanoseconds from `since` to `now`, zero if `now` is earlier.
pub open spec fn elapsed(since: u64, now: u64) -> u64 {
    if now >= since {
        (now - since) as u64
    } else {
        0
    }
}

/// `a + b`, saturating at `u64::MAX`.
pub open spec fn sat_add(a: u64, b: u64) -> u64 {
    if a + b > u64::MAX {
        u64::MAX
    } else {
        (a + b) as u64
    }
}

pub open spec fn min_u64(a: u64, b: u64) -> u64 {
    if a <= b {
        a
    } else {
        b
    }
}

/// Whether a leader republishes without a change: after a heartbeat interval, or after the
/// tracked-publish interval when an external source has moved the timeline since.
pub open spec fn publish_due_spec(last_publish: u64, dirty: bool, now: u64, timing: Timing) -> bool {
    ||| elapsed(last_publish, now) >= timing.heartbeat
    ||| dirty && elapsed(last_publish, now) >= timing.tracked_publish
}

pub fn publish_due(last_publish: u64, dirty: bool, now: u64, timing: &Timing) -> (r: bool)
    ensures
        r == publish_due_spec(last_publish, dirty, now, *timing),
{
    let e = now.saturating_sub(last_publish);
    e >= timing.heartbeat || (dirty && e >= timing.tracked_publish)
}

/// When a sampled external source goes stale: one nanosecond after its sample time plus
/// the source timeout, and not before `now`.
pub fn source_deadline(sample_ns: u64, source_timeout: u64, now: u64) -> (r: u64)
    ensures
        ({
            let due = sat_add(sat_add(sample_ns, source_timeout), 1);
            r == (if due > now {
                due
            } else {
                now
            })
        }),
{
    let due = sample_ns.saturating_add(source_timeout).saturating_add(1);
    if due > now {
        due
    } else {
        now
    }
}

/// The latest time a leader's next pass must run: its heartbeat, its tracked-publish
/// interval when dirty, its first scheduled change, and `pending`, the earliest deadline
/// of its transport, source and connecting peers.
pub open spec fn leader_deadline_spec(
    t: Timeline,
    last_publish: u64,
    dirty: bool,
    timing: Timing,
    now: u64,
    pending: Option<u64>,
) -> u64 {
    let beat = sat_add(last_publish, timing.heartbeat);
    let quick = if dirty {
        min_u64(beat, sat_add(last_publish, timing.tracked_publish))
    } else {
        beat
    };
    let scheduled = if t.scheduled_len > 0 {
        let at = t.scheduled@[0].anchor.time_ns;
        min_u64(
            quick,
            if at > now {
                at
            } else {
                now
            },
        )
    } else {
        quick
    };
    match pending {
        Some(p) => min_u64(scheduled, p),
        None => scheduled,
    }
}

pub fn leader_deadline(
    t: &Timeline,
    last_publish: u64,
    dirty: bool,
    timing: &Timing,
    now: u64,
    pending: Option<u64>,
) -> (r: u64)
    requires
        t.scheduled_len <= 4,
    ensures
        r == leader_deadline_spec(*t, last_publish, dirty, *timing, now, pending),
        pending matches Some(p) ==> r <= p,
{
    let mut next = last_publish.saturating_add(timing.heartbeat);
    if dirty {
        let quick = last_publish.saturating_add(timing.tracked_publish);
        if quick < next {
            next = quick;
        }
    }
    if t.scheduled_len > 0 {
        let at = t.scheduled[0].anchor.time_ns;
        let due = if at > now {
            at
        } else {
            now
        };
        if due < next {
            next = due;
        }
    }
    match pending {
        Some(p) => if p < next {
            p
        } else {
            next
        },
        None => next,
    }
}

/// A follower probes fast until synchronized, then at the steady rate.
pub fn probe_interval(sync: SyncState, timing: &Timing) -> (r: u64)
    ensures
        r == (if sync == SyncState::Synchronized {
            timing.steady_probe
        } else {
            timing.acquisition_probe
        }),
{
    match sync {
        SyncState::Synchronized => timing.steady_probe,
        _ => timing.acquisition_probe,
    }
}

/// The latest time a follower's next pass must run: the transport's deadline `io`, its
/// next probe when connected, the connection deadline of a connecting peer, the retry
/// time when it has none, and the deadline of a partly received snapshot.
pub fn follower_deadline(
    io: Option<u64>,
    peer_deadline: Option<u64>,
    connected: bool,
    next_probe: u64,
    retry_at: u64,
    frame: Option<u64>,
) -> (r: u64)
    ensures
        ({
            let connection = match peer_deadline {
                Some(d) => if connected {
                    next_probe
                } else {
                    d
                },
                None => retry_at,
            };
            let with_io = match io {
                Some(d) => min_u64(d, connection),
                None => connection,
            };
            r == match frame {
                Some(f) => min_u64(with_io, f),
                None => with_io,
            }
        }),
{
    let connection = match peer_deadline {
        Some(d) => if connected {
            next_probe
        } else {
            d
        },
        None => retry_at,
    };
    let mut deadline = match io {
        Some(d) => if d <= connection {
            d
        } else {
            connection
        },
        None => connection,
    };
    match frame {
        Some(f) => if f < deadline {
            deadline = f;
        },
        None => {},
    }
    deadline
}

/// How long the worker loop may wait for readiness: not at all when some job is ready at
/// once, until the earliest job deadline otherwise, and indefinitely without one.
pub fn poll_timeout(immediate: bool, deadline: Option<u64>, now: u64) -> (r: Option<u64>)
    ensures
        r == (if immediate {
            Some(0u64)
        } else {
            match deadline {
                Some(at) => Some(elapsed(now, at)),
                None => None,
            }
        }),
{
    if immediate {
        return Some(0);
    }
    match deadline {
        Some(at) => Some(at.saturating_sub(now)),
        None => None,
    }
}

/// Checks the announced size of a snapshot frame before reading it.
pub fn check_frame_size(size: u64) -> (r: Result<(), Error>)
    ensures
        r == (if size > 512 {
            Err::<(), Error>(Error::Size)
        } else {
            Ok::<(), Error>(())
        }),
{
    if size > crate::MAX_MESSAGE as u64 {
        Err(Error::Size)
    } else {
        Ok(())
    }
}

/// Reconnection pacing of a follower: the delay before the next attempt, doubling up to
/// `retry_max`, and the time of that attempt.
#[derive(Clone, Copy, Debug)]
pub struct Backoff {
    pub delay_ns: u64,
    pub retry_at_ns: u64,
}

/// A connection that lasted longer than this resets the delay to `retry_min`.
pub const STABLE_CONNECTION_NS: u64 = 2_000_000_000;

/// The pacing after losing, at `now`, the connection attempted at `began`: the next attempt
/// waits the current delay, reset to `retry_min` after a stable connection, and the delay
/// after it doubles up to `retry_max`.
pub open spec fn backoff_after(b: Backoff, timing: Timing, began: u64, now: u64) -> Backoff {
    let d = if elapsed(began, now) > STABLE_CONNECTION_NS {
        timing.retry_min
    } else {
        b.delay_ns
    };
    Backoff { delay_ns: min_u64(sat_add(d, d), timing.retry_max), retry_at_ns: sat_add(now, d) }
}

/// Reconnection is bounded: with valid timing and a delay in `[retry_min, retry_max]`, the
/// delay stays in that range after a lost connection, and the next attempt comes no
/// earlier than the loss and at most `retry_max` after it.
pub proof fn lemma_backoff_bounded(b: Backoff, timing: Timing, began: u64, now: u64)
    requires
        timing.valid(),
        timing.retry_min <= b.delay_ns <= timing.retry_max,
    ensures
        ({
            let a = backoff_after(b, timing, began, now);
            &&& timing.retry_min <= a.delay_ns <= timing.retry_max
            &&& now <= a.retry_at_ns <= sat_add(now, timing.retry_max)
        }),
{
}

impl Backoff {
    /// The first attempt is immediate; the first delay is `retry_min`.
    pub fn new(timing: &Timing, now: u64) -> (b: Self)
        ensures
            b.delay_ns == timing.retry_min,
            b.retry_at_ns == now,
    {
        Backoff { delay_ns: timing.retry_min, retry_at_ns: now }
    }

    /// After losing the connection attempted at `began`: wait the current delay (reset to
    /// `retry_min` after a stable connection), then double it up to `retry_max`.
    pub fn disconnected(&mut self, timing: &Timing, began: u64, now: u64)
        ensures
            *final(self) == backoff_after(*old(self), *timing, began, now),
    {
        let mut d = self.delay_ns;
        if now.saturating_sub(began) > STABLE_CONNECTION_NS {
            d = timing.retry_min;
        }
        self.retry_at_ns = now.saturating_add(d);
        let doubled = d.saturating_add(d);
        self.delay_ns = if doubled < timing.retry_max {
            doubled
        } else {
            timing.retry_max
        };
    }

    /// A reconnect command retries at once.
    pub fn retry_now(&mut self, now: u64)
        ensures
            final(self).retry_at_ns == now,
            final(self).delay_ns == old(self).delay_ns,
    {
        self.retry_at_ns = now;
    }
}

} // verus!
