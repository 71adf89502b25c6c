//! Output-time conversion for sample-accurate evaluation.
use vstd::prelude::*;

use crate::timeline::presentation_time;
use crate::Error;

verus! {

/// Nanoseconds from the sample origin to sample `index` at `rate` samples per second,
/// rounded down.
pub open spec fn sample_offset(index: u64, rate: u32) -> int {
    index * 1_000_000_000 / rate as int
}

/// Absolute sample timestamp from a stable sample origin. Use a cumulative sample
/// index across buffers; rounding each buffer's duration would accumulate error.
pub fn sample_time(origin_ns: u64, sample_index: u64, sample_rate: u32) -> (r: Result<u64, Error>)
    ensures
        sample_rate == 0 ==> r == Err::<u64, Error>(Error::Invalid("zero sample rate")),
        sample_rate != 0 && sample_offset(sample_index, sample_rate) > u64::MAX ==> r == Err::<
            u64,
            Error,
        >(Error::Invalid("sample timestamp overflow")),
        sample_rate != 0 && sample_offset(sample_index, sample_rate) <= u64::MAX ==> {
            let at = origin_ns + sample_offset(sample_index, sample_rate);
            &&& at <= i64::MAX ==> r == Ok::<u64, Error>(at as u64)
            &&& at > i64::MAX ==> r == Err::<u64, Error>(
                Error::Invalid("presentation timestamp exceeds supported clock range"),
            )
        },
{
    if sample_rate == 0 {
        return Err(Error::Invalid("zero sample rate"));
    }
    assert(sample_index * 1_000_000_000 <= u64::MAX * 1_000_000_000) by (nonlinear_arith)
        requires
            sample_index <= u64::MAX,
    ;
    let delta = (sample_index as u128) * 1_000_000_000 / (sample_rate as u128);
    if delta > u64::MAX as u128 {
        return Err(Error::Invalid("sample timestamp overflow"));
    }
    presentation_time(origin_ns, delta as u64)
}

/// A bracketed epoch conversion between two readings of the same-rate host clock: an
/// external timestamp was sampled between two local readings, and is taken to lie at
/// their midpoint. Refresh after suspend or a clock-domain change.
#[derive(Clone, Copy, Debug)]
pub struct ClockBridge {
    offset_ns: i128,
    span_ns: u64,
}

impl ClockBridge {
    #[verifier::type_invariant]
    closed spec fn inv(self) -> bool {
        -(u64::MAX as int) <= self.offset_ns <= u64::MAX
    }

    /// Local minus external time.
    pub closed spec fn spec_offset(self) -> int {
        self.offset_ns as int
    }

    /// Width of the bracket; the conversion is uncertain by half of it.
    pub closed spec fn spec_span(self) -> u64 {
        self.span_ns
    }

    /// `external_ns` was sampled between `local_before_ns` and `local_after_ns`.
    pub fn new(local_before_ns: u64, external_ns: u64, local_after_ns: u64) -> (r: Result<
        Self,
        Error,
    >)
        ensures
            match r {
                Ok(b) => local_before_ns <= local_after_ns <= i64::MAX && b.spec_span()
                    == local_after_ns - local_before_ns && b.spec_offset() == local_before_ns + (
                local_after_ns - local_before_ns) / 2 - external_ns,
                Err(e) => (local_after_ns < local_before_ns || local_after_ns > i64::MAX) && e
                    == Error::Invalid("clock bridge bracket"),
            },
    {
        if local_after_ns < local_before_ns || local_after_ns > i64::MAX as u64 {
            return Err(Error::Invalid("clock bridge bracket"));
        }
        let span = local_after_ns - local_before_ns;
        let mid = local_before_ns + span / 2;
        Ok(ClockBridge { offset_ns: mid as i128 - external_ns as i128, span_ns: span })
    }

    pub fn offset_ns(&self) -> (r: i128)
        ensures
            r == self.spec_offset(),
    {
        self.offset_ns
    }

    pub fn span_ns(&self) -> (r: u64)
        ensures
            r == self.spec_span(),
    {
        self.span_ns
    }

    /// The local time of external time `external_ns`, refused outside the engine's
    /// clock range.
    pub fn convert(&self, external_ns: u64) -> (r: Result<u64, Error>)
        ensures
            ({
                let local = external_ns + self.spec_offset();
                match r {
                    Ok(t) => 0 <= local <= i64::MAX && t == local,
                    Err(e) => (local < 0 || local > i64::MAX) && e == Error::Invalid(
                        "output timestamp outside engine clock range",
                    ),
                }
            }),
    {
        proof {
            use_type_invariant(self);
        }
        let local = external_ns as i128 + self.offset_ns;
        if local < 0 || local > i64::MAX as i128 {
            return Err(Error::Invalid("output timestamp outside engine clock range"));
        }
        Ok(local as u64)
    }
}

/// The external reading a bridge was made from converts to the middle of its bracket.
pub proof fn lemma_bridge_midpoint(before: u64, external: u64, after: u64, b: ClockBridge)
    requires
        before <= after,
        b.spec_span() == after - before,
        b.spec_offset() == before + (after - before) / 2 - external,
    ensures
        before <= external + b.spec_offset() <= after,
        after - (external + b.spec_offset()) <= b.spec_span() / 2 + 1,
{
}

} // verus!
