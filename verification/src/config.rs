//! Engine configuration: timing, trust, and the checks an engine applies to them.
use vstd::prelude::*;

use std::time::Instant;

use crate::text::push_str;
use crate::Error;
use vstd::string::StringSliceAdditionalSpecFns;

verus! {

/// Errors of a synchronizing engine.
#[derive(Clone, Debug)]
pub enum EngineError {
    /// Invalid configuration.
    Invalid(&'static str),
    /// The worker has shut down.
    Shutdown,
    /// The bounded command queue is full.
    QueueFull,
    /// The reader capacity is reached.
    ReaderLimit,
    /// A protocol error.
    Protocol(Error),
    /// A transport error, described.
    Transport(String),
    /// A discovery error, described.
    Discovery(String),
}

/// The description of an engine error.
pub open spec fn engine_error_text(e: EngineError) -> Seq<char> {
    match e {
        EngineError::Invalid(m) => "invalid configuration: "@ + m@,
        EngineError::Shutdown => "worker has shut down"@,
        EngineError::QueueFull => "bounded command queue is full"@,
        EngineError::ReaderLimit => "reader capacity reached"@,
        EngineError::Protocol(p) => "protocol: "@ + crate::error_text(p),
        EngineError::Transport(m) => "transport: "@ + m@,
        EngineError::Discovery(m) => "discovery: "@ + m@,
    }
}

impl EngineError {
    pub fn to_string(&self) -> (r: String)
        ensures
            r@ == engine_error_text(*self),
    {
        let mut s = String::new();
        match self {
            EngineError::Invalid(m) => {
                push_str(&mut s, "invalid configuration: ");
                push_str(&mut s, m);
            },
            EngineError::Shutdown => push_str(&mut s, "worker has shut down"),
            EngineError::QueueFull => push_str(&mut s, "bounded command queue is full"),
            EngineError::ReaderLimit => push_str(&mut s, "reader capacity reached"),
            EngineError::Protocol(p) => {
                push_str(&mut s, "protocol: ");
                let t = p.to_string();
                push_str(&mut s, t.as_str());
            },
            EngineError::Transport(m) => {
                push_str(&mut s, "transport: ");
                push_str(&mut s, m.as_str());
            },
            EngineError::Discovery(m) => {
                push_str(&mut s, "discovery: ");
                push_str(&mut s, m.as_str());
            },
        }
        assert(s@ =~= engine_error_text(*self));
        s
    }
}

/// Engine intervals, in nanoseconds.
#[derive(Clone, Copy, Debug)]
pub struct Timing {
    pub acquisition_probe: u64,
    pub steady_probe: u64,
    pub heartbeat: u64,
    pub tracked_publish: u64,
    pub source_timeout: u64,
    pub connect_timeout: u64,
    pub retry_min: u64,
    pub retry_max: u64,
}

/// One hour in nanoseconds.
pub open spec fn hour_ns() -> int {
    3_600_000_000_000
}

/// An interval within (0, 1 hour].
pub open spec fn interval_ok(d: u64) -> bool {
    0 < d <= hour_ns()
}

impl Timing {
    /// Every interval is within (0, 1 hour] and the retry range is ordered.
    pub open spec fn valid(&self) -> bool {
        &&& interval_ok(self.acquisition_probe)
        &&& interval_ok(self.steady_probe)
        &&& interval_ok(self.heartbeat)
        &&& interval_ok(self.tracked_publish)
        &&& interval_ok(self.source_timeout)
        &&& interval_ok(self.connect_timeout)
        &&& interval_ok(self.retry_min)
        &&& interval_ok(self.retry_max)
        &&& self.retry_min <= self.retry_max
    }

    pub fn validate(&self) -> (r: Result<(), EngineError>)
        ensures
            r is Ok <==> self.valid(),
            r matches Err(e) ==> e matches EngineError::Invalid(m) && m
                == "timing intervals must be in (0, 1 hour], retry_min <= retry_max",
    {
        if !interval_in_range(self.acquisition_probe) || !interval_in_range(self.steady_probe)
            || !interval_in_range(self.heartbeat) || !interval_in_range(self.tracked_publish)
            || !interval_in_range(self.source_timeout) || !interval_in_range(self.connect_timeout)
            || !interval_in_range(self.retry_min) || !interval_in_range(self.retry_max)
            || self.retry_min > self.retry_max {
            return Err(
                EngineError::Invalid("timing intervals must be in (0, 1 hour], retry_min <= retry_max"),
            );
        }
        Ok(())
    }
}

fn interval_in_range(d: u64) -> (r: bool)
    ensures
        r == interval_ok(d),
{
    0 < d && d <= 3_600_000_000_000
}

/// Probing at 50 ms until synchronized and 250 ms after, a heartbeat every second,
/// external-source publication every 100 ms, a 500 ms source timeout, a 3 s connection
/// timeout, and reconnection backoff from 100 ms to 5 s.
pub open spec fn default_timing() -> Timing {
    Timing {
        acquisition_probe: 50_000_000,
        steady_probe: 250_000_000,
        heartbeat: 1_000_000_000,
        tracked_publish: 100_000_000,
        source_timeout: 500_000_000,
        connect_timeout: 3_000_000_000,
        retry_min: 100_000_000,
        retry_max: 5_000_000_000,
    }
}

impl Default for Timing {
    fn default() -> (t: Self)
        ensures
            t == default_timing(),
            t.valid(),
    {
        Timing {
            acquisition_probe: 50_000_000,
            steady_probe: 250_000_000,
            heartbeat: 1_000_000_000,
            tracked_publish: 100_000_000,
            source_timeout: 500_000_000,
            connect_timeout: 3_000_000_000,
            retry_min: 100_000_000,
            retry_max: 5_000_000_000,
        }
    }
}

/// How a follower authenticates its leader.
#[derive(Clone, Debug)]
pub enum Trust {
    /// Any certificate on a trusted network.
    TrustedLan,
    /// Only the certificate with this SHA-256 fingerprint.
    Pinned(String),
}

/// Independently sampled lifetime worker counters, including connection setup.
#[derive(Clone, Copy, Debug)]
pub struct WorkerTiming {
    pub passes: u64,
    pub max_pass_ns: u64,
    pub max_deadline_lateness_ns: u64,
}

impl WorkerTiming {
    /// Counts one pass of the worker loop that took `pass_ns` and started `lateness_ns`
    /// after the deadline it was scheduled for, keeping the largest of each.
    pub fn record(&mut self, pass_ns: u64, lateness_ns: u64)
        ensures
            final(self).passes == (if old(self).passes == u64::MAX {
                0
            } else {
                old(self).passes + 1
            }),
            final(self).max_pass_ns == (if pass_ns > old(self).max_pass_ns {
                pass_ns
            } else {
                old(self).max_pass_ns
            }),
            final(self).max_deadline_lateness_ns == (if lateness_ns
                > old(self).max_deadline_lateness_ns {
                lateness_ns
            } else {
                old(self).max_deadline_lateness_ns
            }),
    {
        self.passes = self.passes.wrapping_add(1);
        if pass_ns > self.max_pass_ns {
            self.max_pass_ns = pass_ns;
        }
        if lateness_ns > self.max_deadline_lateness_ns {
            self.max_deadline_lateness_ns = lateness_ns;
        }
    }
}

impl Default for WorkerTiming {
    fn default() -> (w: Self)
        ensures
            w.passes == 0 && w.max_pass_ns == 0 && w.max_deadline_lateness_ns == 0,
    {
        WorkerTiming { passes: 0, max_pass_ns: 0, max_deadline_lateness_ns: 0 }
    }
}

/// The leader settings that `Engine::leader` accepts: a valid timing, a name of 1 to 63
/// bytes, an identity of at most 100 bytes, and room for 1 to 1024 followers.
pub open spec fn leader_settings_ok(
    name_len: nat,
    identity_len: nat,
    max_followers: usize,
    timing: Timing,
) -> bool {
    &&& timing.valid()
    &&& 1 <= max_followers <= 1024
    &&& 1 <= name_len <= 63
    &&& identity_len <= 100
}

/// The checks an engine applies to a leader configuration before starting it.
pub fn validate_leader(name: &str, identity: &str, max_followers: usize, timing: &Timing) -> (r:
    Result<(), EngineError>)
    ensures
        r is Ok <==> leader_settings_ok(
            name.spec_bytes().len(),
            identity.spec_bytes().len(),
            max_followers,
            *timing,
        ),
        !timing.valid() ==> (r matches Err(EngineError::Invalid(m)) && m
            == "timing intervals must be in (0, 1 hour], retry_min <= retry_max"),
        timing.valid() && r is Err ==> (r matches Err(EngineError::Invalid(m)) && m
            == "leader name, identity or follower capacity"),
{
    match timing.validate() {
        Ok(_) => {},
        Err(e) => return Err(e),
    }
    let name_len = name.as_bytes().len();
    let identity_len = identity.as_bytes().len();
    if max_followers == 0 || max_followers > 1024 || name_len == 0 || name_len > 63 || identity_len
        > 100 {
        return Err(EngineError::Invalid("leader name, identity or follower capacity"));
    }
    Ok(())
}

/// Declares the standard monotonic instant.
#[verifier::external_type_specification]
#[verifier::external_body]
pub struct ExInstant(Instant);

/// Reads `Instant::now()`; nothing is claimed of the instant.
#[verifier::external_body]
fn instant_now() -> Instant {
    Instant::now()
}

/// Nanoseconds elapsed since `start`, by `Instant::elapsed` and `Duration::as_nanos`;
/// nothing is claimed of the value, which depends on the time of the call.
#[verifier::external_body]
fn elapsed_nanos(start: &Instant) -> u128 {
    start.elapsed().as_nanos()
}

/// Timestamp domain shared by an engine and its external source inputs.
#[derive(Clone, Copy, Debug)]
pub struct MonotonicClock(Instant);

impl MonotonicClock {
    /// A clock whose epoch is now.
    pub fn start() -> Self {
        MonotonicClock(instant_now())
    }

    /// Nanoseconds since the clock's epoch, saturating at `i64::MAX`: the elapsed time the
    /// standard library reports, passed through `saturating_ns`. That time depends on the
    /// moment of the call, so the contract states what holds of every reading.
    pub fn now_ns(self) -> (r: u64)
        ensures
            r <= i64::MAX,
            exists|elapsed: u128| r == saturated_ns(elapsed),
    {
        let elapsed = elapsed_nanos(&self.0);
        saturating_ns(elapsed)
    }
}

/// A nanosecond count capped at `i64::MAX`, the range of the engine's timestamps.
pub open spec fn saturated_ns(elapsed: u128) -> u64 {
    if elapsed > i64::MAX {
        i64::MAX as u64
    } else {
        elapsed as u64
    }
}

/// Caps an elapsed nanosecond count at `i64::MAX`.
pub fn saturating_ns(elapsed: u128) -> (r: u64)
    ensures
        r == saturated_ns(elapsed),
        r <= i64::MAX,
{
    if elapsed > i64::MAX as u128 {
        i64::MAX as u64
    } else {
        elapsed as u64
    }
}

/// Capping keeps the order of readings: a later, longer elapsed time never reads earlier,
/// and times within range read unchanged.
pub proof fn lemma_saturated_monotone(e1: u128, e2: u128)
    requires
        e1 <= e2,
    ensures
        saturated_ns(e1) <= saturated_ns(e2),
        e2 <= i64::MAX ==> saturated_ns(e2) == e2,
{
}

} // verus!
