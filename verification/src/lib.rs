//! Portable wire schema, exact timecode arithmetic, timeline logic, and the decisions that
//! leaders and followers make. Timestamps are supplied by the caller (`MonotonicClock`
//! reads the host's monotonic clock); nothing here performs network or file I/O.
use vstd::prelude::*;

pub mod arith;
pub mod bindings;
pub mod boundary;
pub mod clock;
pub mod codec;
pub mod config;
pub mod discovery;
pub mod engine;
pub mod facade;
pub mod follower;
pub mod ids;
pub mod leader;
pub mod link;
pub mod probes;
pub mod runtime;
pub mod text;
pub mod timecode;
pub mod options;
pub mod output;
pub mod timeline;
pub mod timers;
pub mod tls;
pub mod tracking;
pub mod wire;

pub use timecode::{FrameFormat, Label, Position, Rate};

use crate::wire::{
    decode_probe_spec, decode_snapshot_spec, encode_probe_spec, encode_snapshot_spec, Snapshot,
    SnapshotModel,
};

verus! {

/// Protocol version carried by every message.
pub const VERSION: u32 = 1;

/// Largest application message, in bytes.
pub const MAX_MESSAGE: usize = 512;

/// Largest number of pending scheduled changes.
pub const MAX_SCHEDULED: usize = 4;

/// A timestamped reading of an external timecode source.
#[derive(Clone, Copy, Debug)]
pub struct SourceSample {
    pub timestamp_ns: u64,
    pub position: Position,
    pub rate_hint: Option<Rate>,
    pub discontinuity: bool,
}

/// What a predicted boundary marks.
#[derive(Clone, Copy, Debug, PartialEq, Eq, Structural)]
pub enum BoundaryKind {
    /// The next strictly future integer-position crossing in the playback direction.
    Frame,
    /// A scheduled control takes effect; recompute the next deadline after waking.
    ScheduledChange,
}

/// Errors reported by validation, arithmetic and message decoding.
#[derive(Clone, Copy, Debug, PartialEq, Eq)]
pub enum Error {
    /// An invalid timecode, rate or wire value, with a short description.
    Invalid(&'static str),
    /// An unsupported protocol version.
    Version(u32),
    /// An application message larger than the maximum size.
    Size,
    /// Malformed Protocol Buffers bytes.
    Decode,
}

/// The human-readable description of an error.
pub open spec fn error_text(e: Error) -> Seq<char> {
    match e {
        Error::Invalid(s) => "invalid timecode or wire value: "@ + s@,
        Error::Version(v) => "unsupported Tidkod protocol version "@ + text::decimal(v as nat),
        Error::Size => "application message exceeds 512 bytes"@,
        Error::Decode => "malformed protobuf"@,
    }
}

impl Error {
    pub fn to_string(&self) -> (r: String)
        ensures
            r@ == error_text(*self),
    {
        let mut s = String::new();
        match self {
            Error::Invalid(t) => {
                text::push_str(&mut s, "invalid timecode or wire value: ");
                text::push_str(&mut s, t);
            },
            Error::Version(v) => {
                text::push_str(&mut s, "unsupported Tidkod protocol version ");
                text::push_decimal(&mut s, *v as u64);
            },
            Error::Size => text::push_str(&mut s, "application message exceeds 512 bytes"),
            Error::Decode => text::push_str(&mut s, "malformed protobuf"),
        }
        assert(s@ =~= error_text(*self));
        s
    }
}

/// A wire message with a canonical encoding.
pub trait Message {
    /// The bytes that encode this message.
    spec fn spec_encoding(&self) -> Seq<u8>;

    fn encode_to_vec(&self) -> (r: Vec<u8>)
        ensures
            r@ == self.spec_encoding(),
    ;
}

impl Message for Snapshot {
    open spec fn spec_encoding(&self) -> Seq<u8> {
        encode_snapshot_spec(self@)
    }

    fn encode_to_vec(&self) -> (r: Vec<u8>) {
        wire::encode_snapshot(self)
    }
}

impl Message for wire::Probe {
    open spec fn spec_encoding(&self) -> Seq<u8> {
        encode_probe_spec(*self)
    }

    fn encode_to_vec(&self) -> (r: Vec<u8>) {
        wire::encode_probe(self)
    }
}

/// Encodes a message, refusing one larger than `MAX_MESSAGE` bytes.
pub fn encode<T: Message>(value: &T) -> (r: Result<Vec<u8>, Error>)
    ensures
        match r {
            Ok(bytes) => bytes@ == value.spec_encoding() && bytes@.len() <= 512,
            Err(e) => value.spec_encoding().len() > 512 && e == Error::Size,
        },
{
    let bytes = value.encode_to_vec();
    if bytes.len() > MAX_MESSAGE {
        return Err(Error::Size);
    }
    Ok(bytes)
}

/// What `validate_anchor` reports for an anchor, in the order it checks.
pub open spec fn anchor_error(a: wire::Anchor) -> Option<Error> {
    if a.time_ns > i64::MAX {
        Some(Error::Invalid("timestamp"))
    } else if a.position is None {
        Some(Error::Invalid("position missing"))
    } else if a.rate is None {
        Some(Error::Invalid("rate missing"))
    } else if !timecode::rate_in_range(
        a.rate.unwrap().numerator as int,
        a.rate.unwrap().denominator as int,
    ) {
        Some(Error::Invalid("rate (maximum magnitude 64)"))
    } else {
        None
    }
}

/// What `validate_snapshot` reports for the schedule entries `l`, each of which must be
/// later than `time` and carry a larger discontinuity than `disc`, and so on in turn.
pub open spec fn schedule_error(l: Seq<wire::ScheduledChange>, time: u64, disc: u64) -> Option<Error>
    decreases l.len(),
{
    if l.len() == 0 {
        None
    } else {
        let c = l[0];
        if c.anchor is None {
            Some(Error::Invalid("scheduled anchor missing"))
        } else if anchor_error(c.anchor.unwrap()) is Some {
            anchor_error(c.anchor.unwrap())
        } else if c.anchor.unwrap().time_ns <= time || c.discontinuity <= disc {
            Some(Error::Invalid("schedule order"))
        } else {
            schedule_error(l.drop_first(), c.anchor.unwrap().time_ns, c.discontinuity)
        }
    }
}

/// What `validate_snapshot` reports for a snapshot, in the order it checks.
pub open spec fn snapshot_error(s: SnapshotModel) -> Option<Error> {
    if s.version != 1 {
        Some(Error::Version(s.version))
    } else if s.session.len() != 16 || s.revision == 0 {
        Some(Error::Invalid("identity/revision"))
    } else if !(s.source_kind == 1 || s.source_kind == 2) || !(s.source_health == 1
        || s.source_health == 2) {
        Some(Error::Invalid("source enum"))
    } else if s.format is None {
        Some(Error::Invalid("format missing"))
    } else if !timecode::supported_format(
        s.format.unwrap().numerator,
        s.format.unwrap().denominator,
        s.format.unwrap().drop_frame,
    ) {
        Some(Error::Invalid("frame format"))
    } else if s.anchor is None {
        Some(Error::Invalid("anchor missing"))
    } else if anchor_error(s.anchor.unwrap()) is Some {
        anchor_error(s.anchor.unwrap())
    } else if s.scheduled.len() > 4 {
        Some(Error::Invalid("schedule capacity"))
    } else {
        schedule_error(s.scheduled, s.anchor.unwrap().time_ns, s.discontinuity)
    }
}

fn validate_anchor(a: &wire::Anchor) -> (r: Result<(), Error>)
    ensures
        match r {
            Ok(_) => anchor_error(*a) is None,
            Err(e) => anchor_error(*a) == Some(e),
        },
{
    if a.time_ns > i64::MAX as u64 {
        return Err(Error::Invalid("timestamp"));
    }
    match a.position {
        Some(_) => {},
        None => return Err(Error::Invalid("position missing")),
    }
    let r = match a.rate {
        Some(r) => r,
        None => return Err(Error::Invalid("rate missing")),
    };
    match Rate::new(r.numerator, r.denominator) {
        Ok(_) => Ok(()),
        Err(e) => Err(e),
    }
}

/// Checks a decoded snapshot against the protocol's rules.
pub fn validate_snapshot(s: &Snapshot) -> (r: Result<(), Error>)
    ensures
        match r {
            Ok(_) => snapshot_error(s@) is None,
            Err(e) => snapshot_error(s@) == Some(e),
        },
{
    if s.version != VERSION {
        return Err(Error::Version(s.version));
    }
    if s.session.len() != 16 || s.revision == 0 {
        return Err(Error::Invalid("identity/revision"));
    }
    if !(s.source_kind == 1 || s.source_kind == 2) || !(s.source_health == 1 || s.source_health
        == 2) {
        return Err(Error::Invalid("source enum"));
    }
    let f = match s.format {
        Some(f) => f,
        None => return Err(Error::Invalid("format missing")),
    };
    match FrameFormat::new(f.numerator, f.denominator, f.drop_frame) {
        Ok(_) => {},
        Err(e) => return Err(e),
    }
    let a = match s.anchor {
        Some(a) => a,
        None => return Err(Error::Invalid("anchor missing")),
    };
    match validate_anchor(&a) {
        Ok(_) => {},
        Err(e) => return Err(e),
    }
    if s.scheduled.len() > MAX_SCHEDULED {
        return Err(Error::Invalid("schedule capacity"));
    }
    let mut time = a.time_ns;
    let mut disc = s.discontinuity;
    let mut i: usize = 0;
    assert(s@.scheduled.skip(0) =~= s@.scheduled);
    while i < s.scheduled.len()
        invariant
            i <= s.scheduled@.len(),
            snapshot_error(s@) == schedule_error(s@.scheduled.skip(i as int), time, disc),
        decreases s.scheduled.len() - i,
    {
        let c = s.scheduled[i];
        assert(s@.scheduled.skip(i as int)[0] == c);
        assert(s@.scheduled.skip(i as int).drop_first() =~= s@.scheduled.skip(i + 1));
        let ca = match c.anchor {
            Some(ca) => ca,
            None => return Err(Error::Invalid("scheduled anchor missing")),
        };
        match validate_anchor(&ca) {
            Ok(_) => {},
            Err(e) => return Err(e),
        }
        if ca.time_ns <= time || c.discontinuity <= disc {
            return Err(Error::Invalid("schedule order"));
        }
        time = ca.time_ns;
        disc = c.discontinuity;
        i = i + 1;
    }
    Ok(())
}

/// Everything `decode_snapshot` can return for `bytes`.
pub open spec fn decode_snapshot_result(bytes: Seq<u8>) -> Result<SnapshotModel, Error> {
    if bytes.len() > 512 {
        Err(Error::Size)
    } else {
        match decode_snapshot_spec(bytes) {
            None => Err(Error::Decode),
            Some(s) => match snapshot_error(s) {
                Some(e) => Err(e),
                None => Ok(s),
            },
        }
    }
}

/// Decodes and validates a timeline snapshot of at most `MAX_MESSAGE` bytes.
pub fn decode_snapshot(bytes: &[u8]) -> (r: Result<Snapshot, Error>)
    ensures
        match r {
            Ok(s) => decode_snapshot_result(bytes@) == Ok::<SnapshotModel, Error>(s@),
            Err(e) => decode_snapshot_result(bytes@) == Err::<SnapshotModel, Error>(e),
        },
{
    if bytes.len() > MAX_MESSAGE {
        return Err(Error::Size);
    }
    let mut s = Snapshot::default();
    match wire::merge_snapshot(&mut s, bytes) {
        Ok(_) => {},
        Err(e) => return Err(e),
    }
    match validate_snapshot(&s) {
        Ok(_) => Ok(s),
        Err(e) => Err(e),
    }
}

/// What `decode_probe` checks of a decoded probe, in order.
pub open spec fn probe_error(p: wire::Probe) -> Option<Error> {
    if p.version != 1 {
        Some(Error::Version(p.version))
    } else if p.sequence == 0 || p.t1 > i64::MAX || p.t2 > i64::MAX || p.t3 > i64::MAX || p.t3
        < p.t2 || (p.t2 == 0) != (p.t3 == 0) {
        Some(Error::Invalid("probe"))
    } else {
        None
    }
}

/// Everything `decode_probe` can return for `bytes`.
pub open spec fn decode_probe_result(bytes: Seq<u8>) -> Result<wire::Probe, Error> {
    if bytes.len() > 512 {
        Err(Error::Size)
    } else {
        match decode_probe_spec(bytes) {
            None => Err(Error::Decode),
            Some(p) => match probe_error(p) {
                Some(e) => Err(e),
                None => Ok(p),
            },
        }
    }
}

/// Decodes a probe request or reply and checks its timestamps.
pub fn decode_probe(bytes: &[u8]) -> (r: Result<wire::Probe, Error>)
    ensures
        r == decode_probe_result(bytes@),
{
    if bytes.len() > MAX_MESSAGE {
        return Err(Error::Size);
    }
    let mut p = wire::Probe::default();
    match wire::merge_probe(&mut p, bytes) {
        Ok(_) => {},
        Err(e) => return Err(e),
    }
    if p.version != VERSION {
        return Err(Error::Version(p.version));
    }
    let max = i64::MAX as u64;
    if p.sequence == 0 || p.t1 > max || p.t2 > max || p.t3 > max || p.t3 < p.t2 || (p.t2 == 0) != (
    p.t3 == 0) {
        return Err(Error::Invalid("probe"));
    }
    Ok(p)
}

} // verus!
