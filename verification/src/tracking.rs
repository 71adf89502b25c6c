//! The integer decisions of following an external timecode source: which samples are
//! taken, when the source counts as healthy, and how a taken sample moves the timeline.
use vstd::prelude::*;

use crate::engine::elapsed;
use crate::follower::{large_count, Confirmation};
use crate::timeline::{Anchor, SourceHealth, SourceKind, Timeline};
use crate::{Error, Position, Rate};

verus! {

/// The health of an external source whose last sample was taken at `last_sample`: healthy
/// while that sample is no older than `timeout`.
pub open spec fn health_at(last_sample: Option<u64>, now: u64, timeout: u64) -> SourceHealth {
    if last_sample matches Some(ts) && elapsed(ts, now) <= timeout {
        SourceHealth::Healthy
    } else {
        SourceHealth::Degraded
    }
}

/// The source is healthy while its last sample is no older than `timeout`.
pub fn source_health(last_sample: Option<u64>, now: u64, timeout: u64) -> (h: SourceHealth)
    ensures
        h == health_at(last_sample, now, timeout),
{
    match last_sample {
        Some(ts) => if now.saturating_sub(ts) > timeout {
            SourceHealth::Degraded
        } else {
            SourceHealth::Healthy
        },
        None => SourceHealth::Degraded,
    }
}

/// Which error, if any, refuses a sample taken at `timestamp` and handed in at `now`: only
/// an external source is sampled, and its timestamps increase and are not in the future.
pub open spec fn sample_error(kind: SourceKind, last_sample: Option<u64>, timestamp: u64, now: u64) -> Option<Error> {
    if kind != SourceKind::External {
        Some(Error::Invalid("source is not tracked"))
    } else if timestamp > now || (last_sample matches Some(p) && timestamp <= p) {
        Some(Error::Invalid("source timestamps must increase and not be in the future"))
    } else {
        None
    }
}

/// Samples only move forward: one is admitted exactly when it comes from an external
/// source, is not in the future, and is later than the last sample taken.
pub proof fn lemma_admitted_samples_increase(kind: SourceKind, last_sample: Option<u64>, timestamp: u64, now: u64)
    ensures
        sample_error(kind, last_sample, timestamp, now) is None <==> (kind == SourceKind::External
            && timestamp <= now && match last_sample {
            Some(p) => timestamp > p,
            None => true,
        }),
{
}

pub fn check_sample(kind: SourceKind, last_sample: Option<u64>, timestamp: u64, now: u64) -> (r:
    Result<(), Error>)
    ensures
        match r {
            Ok(_) => sample_error(kind, last_sample, timestamp, now) is None,
            Err(e) => sample_error(kind, last_sample, timestamp, now) == Some(e),
        },
        // Exactly the samples of an external source that are not in the future and come
        // after the last one taken are admitted.
        r is Ok <==> (kind == SourceKind::External && timestamp <= now && match last_sample {
            Some(p) => timestamp > p,
            None => true,
        }),
{
    match kind {
        SourceKind::External => {},
        SourceKind::Generated => return Err(Error::Invalid("source is not tracked")),
    }
    let late = match last_sample {
        Some(p) => timestamp <= p,
        None => false,
    };
    if timestamp > now || late {
        return Err(Error::Invalid("source timestamps must increase and not be in the future"));
    }
    Ok(())
}

/// Re-anchors the timeline at a taken sample: the source is healthy again, and a change
/// the source reported or that was confirmed takes a new discontinuity and cancels the
/// schedule.
pub fn apply_sample(t: &mut Timeline, timestamp: u64, position: Position, rate: Rate, changed: bool)
    requires
        changed ==> old(t).discontinuity < u64::MAX,
    ensures
        final(t).anchor == (Anchor { time_ns: timestamp, position, rate }),
        final(t).source_health == SourceHealth::Healthy,
        final(t).discontinuity == (if changed {
            old(t).discontinuity + 1
        } else {
            old(t).discontinuity as int
        }),
        final(t).scheduled_len == (if changed {
            0
        } else {
            old(t).scheduled_len
        }),
        final(t).scheduled == old(t).scheduled,
        final(t).session == old(t).session,
        final(t).revision == old(t).revision,
        final(t).format == old(t).format,
        final(t).source_kind == old(t).source_kind,
{
    t.anchor = Anchor { time_ns: timestamp, position, rate };
    t.source_health = SourceHealth::Healthy;
    if changed {
        t.discontinuity = t.discontinuity + 1;
        t.scheduled_len = 0;
    }
}

/// The direction of an offset from the prediction.
pub open spec fn error_sign(error: int) -> i8 {
    if error > 0 {
        1i8
    } else {
        -1i8
    }
}

/// Whether an offset from the prediction, in Q32 frames, is beyond one frame.
pub open spec fn large_error(error: int) -> bool {
    error > 4294967296 || error < -4294967296
}

/// Confirmations a large error needs before the tracker jumps to the source.
pub const JUMP_CONFIRMATIONS: u8 = 3;

/// The integer decisions of tracking a sample: a large offset `error` (Q32 frames from the
/// prediction) counts toward confirming a jump, a small one restarts the count; a rate hint
/// that differs from the current `rate` is taken. The sample changes the trajectory when it
/// is the first, when it marks a discontinuity, when a jump is confirmed or when its hint
/// is taken; the hint taken, if any, is returned beside.
pub fn track_sample(
    jumps: &mut Confirmation,
    first: bool,
    discontinuity: bool,
    error: i128,
    hint: Option<Rate>,
    rate: Rate,
) -> (r: (bool, Option<Rate>))
    ensures
        ({
            let large = large_error(error as int);
            let confirmed = large && large_count(*old(jumps), error_sign(error as int), true)
                >= JUMP_CONFIRMATIONS;
            &&& large ==> final(jumps).sign == error_sign(error as int) && final(jumps).count == (
            if confirmed {
                0
            } else {
                large_count(*old(jumps), error_sign(error as int), true)
            })
            &&& !large ==> final(jumps).count == 0 && final(jumps).sign == old(jumps).sign
            &&& r.1 == (match hint {
                Some(h) => if h != rate {
                    Some(h)
                } else {
                    None
                },
                None => None,
            })
            &&& r.0 == (first || discontinuity || confirmed || r.1 is Some)
        }),
{
    let mut changed = first || discontinuity;
    if error > 4294967296 || error < -4294967296 {
        let sign: i8 = if error > 0 {
            1
        } else {
            -1
        };
        if jumps.large(sign, true, JUMP_CONFIRMATIONS) {
            changed = true;
        }
    } else {
        jumps.small();
    }
    let hinted = match hint {
        Some(h) => if h != rate {
            Some(h)
        } else {
            None
        },
        None => None,
    };
    if hinted.is_some() {
        changed = true;
    }
    (changed, hinted)
}

/// The trajectory a tracked sample anchors: the sample's own position when the trajectory
/// changed, else `nudged` (the prediction moved toward the sample); the hinted rate when a
/// hint was taken, else `inferred` (a confirmed change of speed), else the current rate.
pub fn tracked_trajectory(
    changed: bool,
    sample: Position,
    nudged: Position,
    hinted: Option<Rate>,
    inferred: Option<Rate>,
    current: Rate,
) -> (r: (Position, Rate))
    ensures
        r.0 == (if changed {
            sample
        } else {
            nudged
        }),
        r.1 == (match hinted {
            Some(h) => h,
            None => match inferred {
                Some(i) => i,
                None => current,
            },
        }),
{
    let position = if changed {
        sample
    } else {
        nudged
    };
    let rate = match hinted {
        Some(h) => h,
        None => match inferred {
            Some(i) => i,
            None => current,
        },
    };
    (position, rate)
}

} // verus!
