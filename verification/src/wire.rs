//! The v1 wire schema: messages, their Protocol Buffers encoding and decoding.
//!
//! Field numbers follow declaration order in each message.
use vstd::prelude::*;

use crate::codec::{
    len_field, message_field, parse_field, put_len_field, put_varint_field, read_field,
    varint_field, bytes_field, lemma_field_lens, lemma_len_field, lemma_varint_field, FieldValue,
    WireValue,
};
use crate::Error;

verus! {

#[derive(Clone, Copy, Debug, PartialEq, Eq)]
pub struct Position {
    pub frames: i64,
    pub subframe: u32,
}

#[derive(Clone, Copy, Debug, PartialEq, Eq)]
pub struct Rate {
    pub numerator: i32,
    pub denominator: u32,
}

#[derive(Clone, Copy, Debug, PartialEq, Eq)]
pub struct FrameFormat {
    pub numerator: u32,
    pub denominator: u32,
    pub drop_frame: bool,
}

#[derive(Clone, Copy, Debug, PartialEq, Eq)]
pub struct Anchor {
    pub time_ns: u64,
    pub position: Option<Position>,
    pub rate: Option<Rate>,
}

#[derive(Clone, Copy, Debug, PartialEq, Eq)]
pub struct ScheduledChange {
    pub discontinuity: u64,
    pub anchor: Option<Anchor>,
}

#[derive(Clone, Debug)]
pub struct Snapshot {
    pub version: u32,
    pub session: Vec<u8>,
    pub revision: u64,
    pub discontinuity: u64,
    pub source_kind: i32,
    pub source_health: i32,
    pub format: Option<FrameFormat>,
    pub anchor: Option<Anchor>,
    pub scheduled: Vec<ScheduledChange>,
}

#[derive(Clone, Copy, Debug, PartialEq, Eq)]
pub struct Probe {
    pub version: u32,
    pub sequence: u64,
    pub t1: u64,
    pub t2: u64,
    pub t3: u64,
}

/// The value of a `Snapshot`, with its byte and schedule lists as sequences.
pub struct SnapshotModel {
    pub version: u32,
    pub session: Seq<u8>,
    pub revision: u64,
    pub discontinuity: u64,
    pub source_kind: i32,
    pub source_health: i32,
    pub format: Option<FrameFormat>,
    pub anchor: Option<Anchor>,
    pub scheduled: Seq<ScheduledChange>,
}

impl View for Snapshot {
    type V = SnapshotModel;

    open spec fn view(&self) -> SnapshotModel {
        SnapshotModel {
            version: self.version,
            session: self.session@,
            revision: self.revision,
            discontinuity: self.discontinuity,
            source_kind: self.source_kind,
            source_health: self.source_health,
            format: self.format,
            anchor: self.anchor,
            scheduled: self.scheduled@,
        }
    }
}

// ---------------------------------------------------------------------------------------
// Defaults: every field zero, empty or absent.

pub open spec fn zero_position() -> Position {
    Position { frames: 0, subframe: 0 }
}

pub open spec fn zero_rate() -> Rate {
    Rate { numerator: 0, denominator: 0 }
}

pub open spec fn zero_format() -> FrameFormat {
    FrameFormat { numerator: 0, denominator: 0, drop_frame: false }
}

pub open spec fn zero_anchor() -> Anchor {
    Anchor { time_ns: 0, position: None, rate: None }
}

pub open spec fn zero_scheduled() -> ScheduledChange {
    ScheduledChange { discontinuity: 0, anchor: None }
}

pub open spec fn zero_probe() -> Probe {
    Probe { version: 0, sequence: 0, t1: 0, t2: 0, t3: 0 }
}

pub open spec fn zero_snapshot() -> SnapshotModel {
    SnapshotModel {
        version: 0,
        session: Seq::empty(),
        revision: 0,
        discontinuity: 0,
        source_kind: 0,
        source_health: 0,
        format: None,
        anchor: None,
        scheduled: Seq::empty(),
    }
}

impl Default for Position {
    fn default() -> (r: Self)
        ensures
            r == zero_position(),
    {
        Position { frames: 0, subframe: 0 }
    }
}

impl Default for Rate {
    fn default() -> (r: Self)
        ensures
            r == zero_rate(),
    {
        Rate { numerator: 0, denominator: 0 }
    }
}

impl Default for FrameFormat {
    fn default() -> (r: Self)
        ensures
            r == zero_format(),
    {
        FrameFormat { numerator: 0, denominator: 0, drop_frame: false }
    }
}

impl Default for Anchor {
    fn default() -> (r: Self)
        ensures
            r == zero_anchor(),
    {
        Anchor { time_ns: 0, position: None, rate: None }
    }
}

impl Default for ScheduledChange {
    fn default() -> (r: Self)
        ensures
            r == zero_scheduled(),
    {
        ScheduledChange { discontinuity: 0, anchor: None }
    }
}

impl Default for Probe {
    fn default() -> (r: Self)
        ensures
            r == zero_probe(),
    {
        Probe { version: 0, sequence: 0, t1: 0, t2: 0, t3: 0 }
    }
}

impl Default for Snapshot {
    fn default() -> (r: Self)
        ensures
            r@ == zero_snapshot(),
    {
        Snapshot {
            version: 0,
            session: Vec::new(),
            revision: 0,
            discontinuity: 0,
            source_kind: 0,
            source_health: 0,
            format: None,
            anchor: None,
            scheduled: Vec::new(),
        }
    }
}

// ---------------------------------------------------------------------------------------
// Decoding: a message is its fields applied in order to the default value. Unknown
// fields are skipped, a repeated scalar keeps its last value, a repeated nested message
// is merged into the earlier one, and a known field with the wrong wire type is malformed.

/// Applies the fields of `s` to `m` in order.
pub open spec fn merge_fields<T>(apply: spec_fn(T, nat, WireValue) -> Option<T>, m: T, s: Seq<u8>) -> Option<T>
    decreases s.len(),
{
    if s.len() == 0 {
        Some(m)
    } else {
        match parse_field(s) {
            Some((tag, v, n)) => if 0 < n <= s.len() {
                match apply(m, tag, v) {
                    Some(m2) => merge_fields(apply, m2, s.skip(n as int)),
                    None => None,
                }
            } else {
                None
            },
            None => None,
        }
    }
}

pub open spec fn varint_value(v: WireValue) -> Option<u64> {
    match v {
        WireValue::Varint(x) => Some(x),
        _ => None,
    }
}

pub open spec fn apply_position(m: Position, tag: nat, v: WireValue) -> Option<Position> {
    if tag == 1 {
        match varint_value(v) {
            Some(x) => Some(Position { frames: x as i64, ..m }),
            None => None,
        }
    } else if tag == 2 {
        match varint_value(v) {
            Some(x) => Some(Position { subframe: x as u32, ..m }),
            None => None,
        }
    } else {
        Some(m)
    }
}

pub open spec fn position_step() -> spec_fn(Position, nat, WireValue) -> Option<Position> {
    |m: Position, tag: nat, v: WireValue| apply_position(m, tag, v)
}

pub open spec fn merge_position_spec(m: Position, s: Seq<u8>) -> Option<Position> {
    merge_fields(position_step(), m, s)
}

pub open spec fn apply_rate(m: Rate, tag: nat, v: WireValue) -> Option<Rate> {
    if tag == 1 {
        match varint_value(v) {
            Some(x) => Some(Rate { numerator: x as i32, ..m }),
            None => None,
        }
    } else if tag == 2 {
        match varint_value(v) {
            Some(x) => Some(Rate { denominator: x as u32, ..m }),
            None => None,
        }
    } else {
        Some(m)
    }
}

pub open spec fn rate_step() -> spec_fn(Rate, nat, WireValue) -> Option<Rate> {
    |m: Rate, tag: nat, v: WireValue| apply_rate(m, tag, v)
}

pub open spec fn merge_rate_spec(m: Rate, s: Seq<u8>) -> Option<Rate> {
    merge_fields(rate_step(), m, s)
}

pub open spec fn apply_format(m: FrameFormat, tag: nat, v: WireValue) -> Option<FrameFormat> {
    if tag == 1 {
        match varint_value(v) {
            Some(x) => Some(FrameFormat { numerator: x as u32, ..m }),
            None => None,
        }
    } else if tag == 2 {
        match varint_value(v) {
            Some(x) => Some(FrameFormat { denominator: x as u32, ..m }),
            None => None,
        }
    } else if tag == 3 {
        match varint_value(v) {
            Some(x) => Some(FrameFormat { drop_frame: x != 0, ..m }),
            None => None,
        }
    } else {
        Some(m)
    }
}

pub open spec fn format_step() -> spec_fn(FrameFormat, nat, WireValue) -> Option<FrameFormat> {
    |m: FrameFormat, tag: nat, v: WireValue| apply_format(m, tag, v)
}

pub open spec fn merge_format_spec(m: FrameFormat, s: Seq<u8>) -> Option<FrameFormat> {
    merge_fields(format_step(), m, s)
}

pub open spec fn apply_anchor(m: Anchor, tag: nat, v: WireValue) -> Option<Anchor> {
    if tag == 1 {
        match varint_value(v) {
            Some(x) => Some(Anchor { time_ns: x, ..m }),
            None => None,
        }
    } else if tag == 2 {
        match v {
            WireValue::Bytes(b) => match merge_position_spec(
                m.position.unwrap_or(zero_position()),
                b,
            ) {
                Some(p) => Some(Anchor { position: Some(p), ..m }),
                None => None,
            },
            _ => None,
        }
    } else if tag == 3 {
        match v {
            WireValue::Bytes(b) => match merge_rate_spec(m.rate.unwrap_or(zero_rate()), b) {
                Some(r) => Some(Anchor { rate: Some(r), ..m }),
                None => None,
            },
            _ => None,
        }
    } else {
        Some(m)
    }
}

pub open spec fn anchor_step() -> spec_fn(Anchor, nat, WireValue) -> Option<Anchor> {
    |m: Anchor, tag: nat, v: WireValue| apply_anchor(m, tag, v)
}

pub open spec fn merge_anchor_spec(m: Anchor, s: Seq<u8>) -> Option<Anchor> {
    merge_fields(anchor_step(), m, s)
}

pub open spec fn apply_scheduled(m: ScheduledChange, tag: nat, v: WireValue) -> Option<
    ScheduledChange,
> {
    if tag == 1 {
        match varint_value(v) {
            Some(x) => Some(ScheduledChange { discontinuity: x, ..m }),
            None => None,
        }
    } else if tag == 2 {
        match v {
            WireValue::Bytes(b) => match merge_anchor_spec(m.anchor.unwrap_or(zero_anchor()), b) {
                Some(a) => Some(ScheduledChange { anchor: Some(a), ..m }),
                None => None,
            },
            _ => None,
        }
    } else {
        Some(m)
    }
}

pub open spec fn scheduled_step() -> spec_fn(ScheduledChange, nat, WireValue) -> Option<ScheduledChange> {
    |m: ScheduledChange, tag: nat, v: WireValue| apply_scheduled(m, tag, v)
}

pub open spec fn merge_scheduled_spec(m: ScheduledChange, s: Seq<u8>) -> Option<ScheduledChange> {
    merge_fields(scheduled_step(), m, s)
}

pub open spec fn apply_probe(m: Probe, tag: nat, v: WireValue) -> Option<Probe> {
    if 1 <= tag <= 5 {
        match varint_value(v) {
            Some(x) => Some(
                if tag == 1 {
                    Probe { version: x as u32, ..m }
                } else if tag == 2 {
                    Probe { sequence: x, ..m }
                } else if tag == 3 {
                    Probe { t1: x, ..m }
                } else if tag == 4 {
                    Probe { t2: x, ..m }
                } else {
                    Probe { t3: x, ..m }
                },
            ),
            None => None,
        }
    } else {
        Some(m)
    }
}

pub open spec fn probe_step() -> spec_fn(Probe, nat, WireValue) -> Option<Probe> {
    |m: Probe, tag: nat, v: WireValue| apply_probe(m, tag, v)
}

pub open spec fn merge_probe_spec(m: Probe, s: Seq<u8>) -> Option<Probe> {
    merge_fields(probe_step(), m, s)
}

pub open spec fn apply_snapshot(m: SnapshotModel, tag: nat, v: WireValue) -> Option<SnapshotModel> {
    if tag == 1 || tag == 3 || tag == 4 || tag == 5 || tag == 6 {
        match varint_value(v) {
            Some(x) => Some(
                if tag == 1 {
                    SnapshotModel { version: x as u32, ..m }
                } else if tag == 3 {
                    SnapshotModel { revision: x, ..m }
                } else if tag == 4 {
                    SnapshotModel { discontinuity: x, ..m }
                } else if tag == 5 {
                    SnapshotModel { source_kind: x as i32, ..m }
                } else {
                    SnapshotModel { source_health: x as i32, ..m }
                },
            ),
            None => None,
        }
    } else if tag == 2 {
        match v {
            WireValue::Bytes(b) => Some(SnapshotModel { session: b, ..m }),
            _ => None,
        }
    } else if tag == 7 {
        match v {
            WireValue::Bytes(b) => match merge_format_spec(m.format.unwrap_or(zero_format()), b) {
                Some(f) => Some(SnapshotModel { format: Some(f), ..m }),
                None => None,
            },
            _ => None,
        }
    } else if tag == 8 {
        match v {
            WireValue::Bytes(b) => match merge_anchor_spec(m.anchor.unwrap_or(zero_anchor()), b) {
                Some(a) => Some(SnapshotModel { anchor: Some(a), ..m }),
                None => None,
            },
            _ => None,
        }
    } else if tag == 9 {
        match v {
            WireValue::Bytes(b) => match merge_scheduled_spec(zero_scheduled(), b) {
                Some(c) => Some(SnapshotModel { scheduled: m.scheduled.push(c), ..m }),
                None => None,
            },
            _ => None,
        }
    } else {
        Some(m)
    }
}

pub open spec fn snapshot_step() -> spec_fn(SnapshotModel, nat, WireValue) -> Option<SnapshotModel> {
    |m: SnapshotModel, tag: nat, v: WireValue| apply_snapshot(m, tag, v)
}

pub open spec fn merge_snapshot_spec(m: SnapshotModel, s: Seq<u8>) -> Option<SnapshotModel> {
    merge_fields(snapshot_step(), m, s)
}

/// The snapshot that `bytes` encode, if they are well formed.
pub open spec fn decode_snapshot_spec(bytes: Seq<u8>) -> Option<SnapshotModel> {
    merge_snapshot_spec(zero_snapshot(), bytes)
}

/// The probe that `bytes` encode, if they are well formed.
pub open spec fn decode_probe_spec(bytes: Seq<u8>) -> Option<Probe> {
    merge_probe_spec(zero_probe(), bytes)
}

// ---------------------------------------------------------------------------------------
// Encoding: fields in number order, proto3 defaults omitted.

pub open spec fn encode_position_spec(p: Position) -> Seq<u8> {
    varint_field(1, p.frames as u64) + varint_field(2, p.subframe as u64)
}

pub open spec fn encode_rate_spec(r: Rate) -> Seq<u8> {
    varint_field(1, r.numerator as u64) + varint_field(2, r.denominator as u64)
}

pub open spec fn encode_format_spec(f: FrameFormat) -> Seq<u8> {
    varint_field(1, f.numerator as u64) + varint_field(2, f.denominator as u64) + varint_field(
        3,
        if f.drop_frame {
            1
        } else {
            0
        },
    )
}

pub open spec fn encode_anchor_spec(a: Anchor) -> Seq<u8> {
    varint_field(1, a.time_ns) + message_field(
        2,
        match a.position {
            Some(p) => Some(encode_position_spec(p)),
            None => None,
        },
    ) + message_field(
        3,
        match a.rate {
            Some(r) => Some(encode_rate_spec(r)),
            None => None,
        },
    )
}

pub open spec fn encode_scheduled_spec(c: ScheduledChange) -> Seq<u8> {
    varint_field(1, c.discontinuity) + message_field(
        2,
        match c.anchor {
            Some(a) => Some(encode_anchor_spec(a)),
            None => None,
        },
    )
}

/// Each schedule entry as its own length-delimited field.
pub open spec fn encode_schedule_list(l: Seq<ScheduledChange>) -> Seq<u8>
    decreases l.len(),
{
    if l.len() == 0 {
        Seq::empty()
    } else {
        encode_schedule_list(l.drop_last()) + len_field(9, encode_scheduled_spec(l.last()))
    }
}

pub open spec fn encode_snapshot_spec(s: SnapshotModel) -> Seq<u8> {
    varint_field(1, s.version as u64) + bytes_field(2, s.session) + varint_field(3, s.revision)
        + varint_field(4, s.discontinuity) + varint_field(5, s.source_kind as u64) + varint_field(
        6,
        s.source_health as u64,
    ) + message_field(
        7,
        match s.format {
            Some(f) => Some(encode_format_spec(f)),
            None => None,
        },
    ) + message_field(
        8,
        match s.anchor {
            Some(a) => Some(encode_anchor_spec(a)),
            None => None,
        },
    ) + encode_schedule_list(s.scheduled)
}

pub open spec fn encode_probe_spec(p: Probe) -> Seq<u8> {
    varint_field(1, p.version as u64) + varint_field(2, p.sequence) + varint_field(3, p.t1)
        + varint_field(4, p.t2) + varint_field(5, p.t3)
}

// ---------------------------------------------------------------------------------------
// Field-level reading facts.

/// Reading a message whose bytes start with one whole field.
pub proof fn lemma_merge_step<T>(
    apply: spec_fn(T, nat, WireValue) -> Option<T>,
    m: T,
    f: Seq<u8>,
    rest: Seq<u8>,
    tag: nat,
    v: WireValue,
)
    requires
        parse_field(f + rest) == Some((tag, v, f.len())),
        f.len() > 0,
        (f + rest).skip(f.len() as int) =~= rest,
    ensures
        merge_fields(apply, m, f + rest) == match apply(m, tag, v) {
            Some(m2) => merge_fields(apply, m2, rest),
            None => None,
        },
{
    assert((f + rest).skip(f.len() as int) == rest);
}

/// Reading a message that starts with a varint field, present or omitted.
pub proof fn lemma_merge_varint<T>(
    apply: spec_fn(T, nat, WireValue) -> Option<T>,
    m: T,
    tag: nat,
    x: u64,
    rest: Seq<u8>,
)
    requires
        1 <= tag <= 15,
    ensures
        merge_fields(apply, m, varint_field(tag, x) + rest) == if x == 0 {
            merge_fields(apply, m, rest)
        } else {
            match apply(m, tag, WireValue::Varint(x)) {
                Some(m2) => merge_fields(apply, m2, rest),
                None => None,
            }
        },
{
    if x == 0 {
        assert(varint_field(tag, x) + rest =~= rest);
    } else {
        lemma_varint_field(tag, x, rest);
        lemma_merge_step(apply, m, varint_field(tag, x), rest, tag, WireValue::Varint(x));
    }
}

/// Reading a message that starts with a length-delimited field.
pub proof fn lemma_merge_len<T>(
    apply: spec_fn(T, nat, WireValue) -> Option<T>,
    m: T,
    tag: nat,
    payload: Seq<u8>,
    rest: Seq<u8>,
)
    requires
        1 <= tag <= 15,
        payload.len() < 0x1_0000_0000_0000_0000,
    ensures
        merge_fields(apply, m, len_field(tag, payload) + rest) == match apply(
            m,
            tag,
            WireValue::Bytes(payload),
        ) {
            Some(m2) => merge_fields(apply, m2, rest),
            None => None,
        },
{
    lemma_len_field(tag, payload, rest);
    lemma_merge_step(apply, m, len_field(tag, payload), rest, tag, WireValue::Bytes(payload));
}

/// One step of reading, as the decoding loops take it.
pub proof fn lemma_merge_unfold<T>(apply: spec_fn(T, nat, WireValue) -> Option<T>, m: T, s: Seq<u8>)
    requires
        s.len() > 0,
    ensures
        merge_fields(apply, m, s) == match parse_field(s) {
            Some((tag, v, n)) => if 0 < n <= s.len() {
                match apply(m, tag, v) {
                    Some(m2) => merge_fields(apply, m2, s.skip(n as int)),
                    None => None,
                }
            } else {
                None
            },
            None => None,
        },
{
}

// ---------------------------------------------------------------------------------------
// Decoders.

pub fn merge_position(m: &mut Position, bytes: &[u8]) -> (r: Result<(), Error>)
    ensures
        match r {
            Ok(_) => merge_position_spec(*old(m), bytes@) == Some(*final(m)),
            Err(e) => merge_position_spec(*old(m), bytes@) is None && e == Error::Decode,
        },
{
    let ghost m0 = *m;
    let mut rest = bytes;
    while rest.len() > 0
        invariant
            m0 == *old(m),
            merge_fields(position_step(), m0, bytes@) == merge_fields(position_step(), *m, rest@),
        decreases rest.len(),
    {
        proof {
            lemma_merge_unfold(position_step(), *m, rest@);
        }
        let (tag, v, next) = match read_field(rest) {
            Ok(x) => x,
            Err(e) => return Err(e),
        };
        if tag == 1 {
            match v {
                FieldValue::Varint(x) => {
                    m.frames = x as i64;
                },
                _ => return Err(Error::Decode),
            }
        } else if tag == 2 {
            match v {
                FieldValue::Varint(x) => {
                    m.subframe = x as u32;
                },
                _ => return Err(Error::Decode),
            }
        }
        rest = next;
    }
    Ok(())
}

pub fn merge_rate(m: &mut Rate, bytes: &[u8]) -> (r: Result<(), Error>)
    ensures
        match r {
            Ok(_) => merge_rate_spec(*old(m), bytes@) == Some(*final(m)),
            Err(e) => merge_rate_spec(*old(m), bytes@) is None && e == Error::Decode,
        },
{
    let ghost m0 = *m;
    let mut rest = bytes;
    while rest.len() > 0
        invariant
            m0 == *old(m),
            merge_fields(rate_step(), m0, bytes@) == merge_fields(rate_step(), *m, rest@),
        decreases rest.len(),
    {
        proof {
            lemma_merge_unfold(rate_step(), *m, rest@);
        }
        let (tag, v, next) = match read_field(rest) {
            Ok(x) => x,
            Err(e) => return Err(e),
        };
        if tag == 1 {
            match v {
                FieldValue::Varint(x) => {
                    m.numerator = x as i32;
                },
                _ => return Err(Error::Decode),
            }
        } else if tag == 2 {
            match v {
                FieldValue::Varint(x) => {
                    m.denominator = x as u32;
                },
                _ => return Err(Error::Decode),
            }
        }
        rest = next;
    }
    Ok(())
}

pub fn merge_format(m: &mut FrameFormat, bytes: &[u8]) -> (r: Result<(), Error>)
    ensures
        match r {
            Ok(_) => merge_format_spec(*old(m), bytes@) == Some(*final(m)),
            Err(e) => merge_format_spec(*old(m), bytes@) is None && e == Error::Decode,
        },
{
    let ghost m0 = *m;
    let mut rest = bytes;
    while rest.len() > 0
        invariant
            m0 == *old(m),
            merge_fields(format_step(), m0, bytes@) == merge_fields(format_step(), *m, rest@),
        decreases rest.len(),
    {
        proof {
            lemma_merge_unfold(format_step(), *m, rest@);
        }
        let (tag, v, next) = match read_field(rest) {
            Ok(x) => x,
            Err(e) => return Err(e),
        };
        if tag == 1 {
            match v {
                FieldValue::Varint(x) => {
                    m.numerator = x as u32;
                },
                _ => return Err(Error::Decode),
            }
        } else if tag == 2 {
            match v {
                FieldValue::Varint(x) => {
                    m.denominator = x as u32;
                },
                _ => return Err(Error::Decode),
            }
        } else if tag == 3 {
            match v {
                FieldValue::Varint(x) => {
                    m.drop_frame = x != 0;
                },
                _ => return Err(Error::Decode),
            }
        }
        rest = next;
    }
    Ok(())
}

pub fn merge_anchor(m: &mut Anchor, bytes: &[u8]) -> (r: Result<(), Error>)
    ensures
        match r {
            Ok(_) => merge_anchor_spec(*old(m), bytes@) == Some(*final(m)),
            Err(e) => merge_anchor_spec(*old(m), bytes@) is None && e == Error::Decode,
        },
{
    let ghost m0 = *m;
    let mut rest = bytes;
    while rest.len() > 0
        invariant
            m0 == *old(m),
            merge_fields(anchor_step(), m0, bytes@) == merge_fields(anchor_step(), *m, rest@),
        decreases rest.len(),
    {
        proof {
            lemma_merge_unfold(anchor_step(), *m, rest@);
        }
        let (tag, v, next) = match read_field(rest) {
            Ok(x) => x,
            Err(e) => return Err(e),
        };
        if tag == 1 {
            match v {
                FieldValue::Varint(x) => {
                    m.time_ns = x;
                },
                _ => return Err(Error::Decode),
            }
        } else if tag == 2 {
            match v {
                FieldValue::Bytes(b) => {
                    let mut p = match m.position {
                        Some(p) => p,
                        None => Position::default(),
                    };
                    match merge_position(&mut p, b) {
                        Ok(_) => {},
                        Err(e) => return Err(e),
                    }
                    m.position = Some(p);
                },
                _ => return Err(Error::Decode),
            }
        } else if tag == 3 {
            match v {
                FieldValue::Bytes(b) => {
                    let mut q = match m.rate {
                        Some(q) => q,
                        None => Rate::default(),
                    };
                    match merge_rate(&mut q, b) {
                        Ok(_) => {},
                        Err(e) => return Err(e),
                    }
                    m.rate = Some(q);
                },
                _ => return Err(Error::Decode),
            }
        }
        rest = next;
    }
    Ok(())
}

pub fn merge_scheduled(m: &mut ScheduledChange, bytes: &[u8]) -> (r: Result<(), Error>)
    ensures
        match r {
            Ok(_) => merge_scheduled_spec(*old(m), bytes@) == Some(*final(m)),
            Err(e) => merge_scheduled_spec(*old(m), bytes@) is None && e == Error::Decode,
        },
{
    let ghost m0 = *m;
    let mut rest = bytes;
    while rest.len() > 0
        invariant
            m0 == *old(m),
            merge_fields(scheduled_step(), m0, bytes@) == merge_fields(scheduled_step(), *m, rest@),
        decreases rest.len(),
    {
        proof {
            lemma_merge_unfold(scheduled_step(), *m, rest@);
        }
        let (tag, v, next) = match read_field(rest) {
            Ok(x) => x,
            Err(e) => return Err(e),
        };
        if tag == 1 {
            match v {
                FieldValue::Varint(x) => {
                    m.discontinuity = x;
                },
                _ => return Err(Error::Decode),
            }
        } else if tag == 2 {
            match v {
                FieldValue::Bytes(b) => {
                    let mut a = match m.anchor {
                        Some(a) => a,
                        None => Anchor::default(),
                    };
                    match merge_anchor(&mut a, b) {
                        Ok(_) => {},
                        Err(e) => return Err(e),
                    }
                    m.anchor = Some(a);
                },
                _ => return Err(Error::Decode),
            }
        }
        rest = next;
    }
    Ok(())
}

pub fn merge_probe(m: &mut Probe, bytes: &[u8]) -> (r: Result<(), Error>)
    ensures
        match r {
            Ok(_) => merge_probe_spec(*old(m), bytes@) == Some(*final(m)),
            Err(e) => merge_probe_spec(*old(m), bytes@) is None && e == Error::Decode,
        },
{
    let ghost m0 = *m;
    let mut rest = bytes;
    while rest.len() > 0
        invariant
            m0 == *old(m),
            merge_fields(probe_step(), m0, bytes@) == merge_fields(probe_step(), *m, rest@),
        decreases rest.len(),
    {
        proof {
            lemma_merge_unfold(probe_step(), *m, rest@);
        }
        let (tag, v, next) = match read_field(rest) {
            Ok(x) => x,
            Err(e) => return Err(e),
        };
        if 1 <= tag && tag <= 5 {
            match v {
                FieldValue::Varint(x) => {
                    if tag == 1 {
                        m.version = x as u32;
                    } else if tag == 2 {
                        m.sequence = x;
                    } else if tag == 3 {
                        m.t1 = x;
                    } else if tag == 4 {
                        m.t2 = x;
                    } else {
                        m.t3 = x;
                    }
                },
                _ => return Err(Error::Decode),
            }
        }
        rest = next;
    }
    Ok(())
}

pub fn merge_snapshot(m: &mut Snapshot, bytes: &[u8]) -> (r: Result<(), Error>)
    ensures
        match r {
            Ok(_) => merge_snapshot_spec(old(m)@, bytes@) == Some(final(m)@),
            Err(e) => merge_snapshot_spec(old(m)@, bytes@) is None && e == Error::Decode,
        },
{
    let ghost m0 = m@;
    let mut rest = bytes;
    while rest.len() > 0
        invariant
            m0 == old(m)@,
            merge_fields(snapshot_step(), m0, bytes@) == merge_fields(snapshot_step(), m@, rest@),
        decreases rest.len(),
    {
        proof {
            lemma_merge_unfold(snapshot_step(), m@, rest@);
        }
        let (tag, v, next) = match read_field(rest) {
            Ok(x) => x,
            Err(e) => return Err(e),
        };
        if tag == 1 || tag == 3 || tag == 4 || tag == 5 || tag == 6 {
            match v {
                FieldValue::Varint(x) => {
                    if tag == 1 {
                        m.version = x as u32;
                    } else if tag == 3 {
                        m.revision = x;
                    } else if tag == 4 {
                        m.discontinuity = x;
                    } else if tag == 5 {
                        m.source_kind = x as i32;
                    } else {
                        m.source_health = x as i32;
                    }
                },
                _ => return Err(Error::Decode),
            }
        } else if tag == 2 {
            match v {
                FieldValue::Bytes(b) => {
                    m.session = vstd::slice::slice_to_vec(b);
                },
                _ => return Err(Error::Decode),
            }
        } else if tag == 7 {
            match v {
                FieldValue::Bytes(b) => {
                    let mut f = match m.format {
                        Some(f) => f,
                        None => FrameFormat::default(),
                    };
                    match merge_format(&mut f, b) {
                        Ok(_) => {},
                        Err(e) => return Err(e),
                    }
                    m.format = Some(f);
                },
                _ => return Err(Error::Decode),
            }
        } else if tag == 8 {
            match v {
                FieldValue::Bytes(b) => {
                    let mut a = match m.anchor {
                        Some(a) => a,
                        None => Anchor::default(),
                    };
                    match merge_anchor(&mut a, b) {
                        Ok(_) => {},
                        Err(e) => return Err(e),
                    }
                    m.anchor = Some(a);
                },
                _ => return Err(Error::Decode),
            }
        } else if tag == 9 {
            match v {
                FieldValue::Bytes(b) => {
                    let mut c = ScheduledChange::default();
                    match merge_scheduled(&mut c, b) {
                        Ok(_) => {},
                        Err(e) => return Err(e),
                    }
                    m.scheduled.push(c);
                },
                _ => return Err(Error::Decode),
            }
        }
        rest = next;
    }
    Ok(())
}

// ---------------------------------------------------------------------------------------
// Encoders.

pub fn encode_position(p: &Position, buf: &mut Vec<u8>)
    ensures
        final(buf)@ == old(buf)@ + encode_position_spec(*p),
{
    put_varint_field(buf, 1, p.frames as u64);
    put_varint_field(buf, 2, p.subframe as u64);
    assert(final(buf)@ =~= old(buf)@ + encode_position_spec(*p));
}

pub fn encode_rate(r: &Rate, buf: &mut Vec<u8>)
    ensures
        final(buf)@ == old(buf)@ + encode_rate_spec(*r),
{
    put_varint_field(buf, 1, r.numerator as u64);
    put_varint_field(buf, 2, r.denominator as u64);
    assert(final(buf)@ =~= old(buf)@ + encode_rate_spec(*r));
}

pub fn encode_format(f: &FrameFormat, buf: &mut Vec<u8>)
    ensures
        final(buf)@ == old(buf)@ + encode_format_spec(*f),
{
    put_varint_field(buf, 1, f.numerator as u64);
    put_varint_field(buf, 2, f.denominator as u64);
    put_varint_field(
        buf,
        3,
        if f.drop_frame {
            1
        } else {
            0
        },
    );
    assert(final(buf)@ =~= old(buf)@ + encode_format_spec(*f));
}

pub fn encode_anchor(a: &Anchor, buf: &mut Vec<u8>)
    ensures
        final(buf)@ == old(buf)@ + encode_anchor_spec(*a),
{
    put_varint_field(buf, 1, a.time_ns);
    let ghost after_time = buf@;
    match a.position {
        Some(p) => {
            let mut inner: Vec<u8> = Vec::new();
            encode_position(&p, &mut inner);
            assert(inner@ =~= encode_position_spec(p));
            put_len_field(buf, 2, inner.as_slice());
        },
        None => {},
    }
    let ghost after_position = buf@;
    assert(after_position =~= after_time + message_field(
        2,
        match a.position {
            Some(p) => Some(encode_position_spec(p)),
            None => None,
        },
    ));
    match a.rate {
        Some(r) => {
            let mut inner: Vec<u8> = Vec::new();
            encode_rate(&r, &mut inner);
            assert(inner@ =~= encode_rate_spec(r));
            put_len_field(buf, 3, inner.as_slice());
        },
        None => {},
    }
    assert(final(buf)@ =~= old(buf)@ + encode_anchor_spec(*a));
}

pub fn encode_scheduled(c: &ScheduledChange, buf: &mut Vec<u8>)
    ensures
        final(buf)@ == old(buf)@ + encode_scheduled_spec(*c),
{
    put_varint_field(buf, 1, c.discontinuity);
    match c.anchor {
        Some(a) => {
            let mut inner: Vec<u8> = Vec::new();
            encode_anchor(&a, &mut inner);
            assert(inner@ =~= encode_anchor_spec(a));
            put_len_field(buf, 2, inner.as_slice());
        },
        None => {},
    }
    assert(final(buf)@ =~= old(buf)@ + encode_scheduled_spec(*c));
}

pub fn encode_snapshot(s: &Snapshot) -> (r: Vec<u8>)
    ensures
        r@ == encode_snapshot_spec(s@),
{
    let mut buf: Vec<u8> = Vec::new();
    put_varint_field(&mut buf, 1, s.version as u64);
    if s.session.len() > 0 {
        put_len_field(&mut buf, 2, s.session.as_slice());
    }
    put_varint_field(&mut buf, 3, s.revision);
    put_varint_field(&mut buf, 4, s.discontinuity);
    put_varint_field(&mut buf, 5, s.source_kind as u64);
    put_varint_field(&mut buf, 6, s.source_health as u64);
    match s.format {
        Some(f) => {
            let mut inner: Vec<u8> = Vec::new();
            encode_format(&f, &mut inner);
            assert(inner@ =~= encode_format_spec(f));
            put_len_field(&mut buf, 7, inner.as_slice());
        },
        None => {},
    }
    match s.anchor {
        Some(a) => {
            let mut inner: Vec<u8> = Vec::new();
            encode_anchor(&a, &mut inner);
            assert(inner@ =~= encode_anchor_spec(a));
            put_len_field(&mut buf, 8, inner.as_slice());
        },
        None => {},
    }
    let ghost head = buf@;
    assert(head =~= encode_snapshot_spec(s@).take(head.len() as int)) by {
        assert(encode_snapshot_spec(s@) =~= head + encode_schedule_list(s@.scheduled));
    }
    let mut i: usize = 0;
    while i < s.scheduled.len()
        invariant
            i <= s.scheduled@.len(),
            buf@ == head + encode_schedule_list(s.scheduled@.take(i as int)),
        decreases s.scheduled.len() - i,
    {
        let mut inner: Vec<u8> = Vec::new();
        encode_scheduled(&s.scheduled[i], &mut inner);
        assert(inner@ =~= encode_scheduled_spec(s.scheduled@[i as int]));
        put_len_field(&mut buf, 9, inner.as_slice());
        i = i + 1;
        assert(s.scheduled@.take(i as int).drop_last() =~= s.scheduled@.take(i - 1));
        assert(buf@ =~= head + encode_schedule_list(s.scheduled@.take(i as int)));
    }
    assert(s.scheduled@.take(i as int) =~= s.scheduled@);
    assert(buf@ =~= encode_snapshot_spec(s@));
    buf
}

pub fn encode_probe(p: &Probe) -> (r: Vec<u8>)
    ensures
        r@ == encode_probe_spec(*p),
{
    let mut buf: Vec<u8> = Vec::new();
    put_varint_field(&mut buf, 1, p.version as u64);
    put_varint_field(&mut buf, 2, p.sequence);
    put_varint_field(&mut buf, 3, p.t1);
    put_varint_field(&mut buf, 4, p.t2);
    put_varint_field(&mut buf, 5, p.t3);
    assert(buf@ =~= encode_probe_spec(*p));
    buf
}

// ---------------------------------------------------------------------------------------
// Reading back what was written.

proof fn lemma_cast_roundtrips(a: i64, b: u32, c: i32)
    ensures
        (a as u64) as i64 == a,
        (a as u64 == 0) == (a == 0),
        (b as u64) as u32 == b,
        (b as u64 == 0) == (b == 0),
        (c as u64) as i32 == c,
        (c as u64 == 0) == (c == 0),
{
    assert((a as u64) as i64 == a) by (bit_vector);
    assert((a as u64 == 0) == (a == 0)) by (bit_vector);
    assert((c as u64) as i32 == c) by (bit_vector);
    assert((c as u64 == 0) == (c == 0)) by (bit_vector);
}

proof fn lemma_varint_field_len(tag: nat, v: u64)
    requires
        1 <= tag <= 15,
    ensures
        varint_field(tag, v).len() <= 11,
{
    if v != 0 {
        crate::codec::lemma_varint_cap();
        crate::codec::lemma_varint_roundtrip(tag * 8, Seq::empty(), 0);
        crate::codec::lemma_varint_roundtrip(v as nat, Seq::empty(), 0);
    }
}

proof fn lemma_len_field_len(tag: nat, payload: Seq<u8>)
    requires
        1 <= tag <= 15,
        payload.len() < 0x1_0000_0000_0000_0000,
    ensures
        len_field(tag, payload).len() <= 11 + payload.len(),
{
    crate::codec::lemma_varint_cap();
    crate::codec::lemma_varint_roundtrip(tag * 8 + 2, Seq::empty(), 0);
    crate::codec::lemma_varint_roundtrip(payload.len(), Seq::empty(), 0);
}

proof fn lemma_position_roundtrip(p: Position)
    ensures
        merge_position_spec(zero_position(), encode_position_spec(p)) == Some(p),
        encode_position_spec(p).len() <= 22,
{
    let f1 = varint_field(1, p.frames as u64);
    let f2 = varint_field(2, p.subframe as u64);
    lemma_cast_roundtrips(p.frames, p.subframe, 0);
    lemma_varint_field_len(1, p.frames as u64);
    lemma_varint_field_len(2, p.subframe as u64);
    assert(encode_position_spec(p) =~= f1 + (f2 + Seq::empty()));
    lemma_merge_varint(position_step(), zero_position(), 1, p.frames as u64, f2 + Seq::empty());
    let m1 = Position { frames: p.frames, subframe: 0 };
    lemma_merge_varint(position_step(), m1, 2, p.subframe as u64, Seq::empty());
}

proof fn lemma_rate_roundtrip(r: Rate)
    ensures
        merge_rate_spec(zero_rate(), encode_rate_spec(r)) == Some(r),
        encode_rate_spec(r).len() <= 22,
{
    let f1 = varint_field(1, r.numerator as u64);
    let f2 = varint_field(2, r.denominator as u64);
    lemma_cast_roundtrips(0, r.denominator, r.numerator);
    lemma_varint_field_len(1, r.numerator as u64);
    lemma_varint_field_len(2, r.denominator as u64);
    assert(encode_rate_spec(r) =~= f1 + (f2 + Seq::empty()));
    lemma_merge_varint(rate_step(), zero_rate(), 1, r.numerator as u64, f2 + Seq::empty());
    let m1 = Rate { numerator: r.numerator, denominator: 0 };
    lemma_merge_varint(rate_step(), m1, 2, r.denominator as u64, Seq::empty());
}

proof fn lemma_format_roundtrip(f: FrameFormat)
    ensures
        merge_format_spec(zero_format(), encode_format_spec(f)) == Some(f),
        encode_format_spec(f).len() <= 33,
{
    let d: u64 = if f.drop_frame {
        1
    } else {
        0
    };
    let f1 = varint_field(1, f.numerator as u64);
    let f2 = varint_field(2, f.denominator as u64);
    let f3 = varint_field(3, d);
    lemma_cast_roundtrips(0, f.numerator, 0);
    lemma_cast_roundtrips(0, f.denominator, 0);
    lemma_varint_field_len(1, f.numerator as u64);
    lemma_varint_field_len(2, f.denominator as u64);
    lemma_varint_field_len(3, d);
    assert(encode_format_spec(f) =~= f1 + (f2 + (f3 + Seq::empty())));
    lemma_merge_varint(format_step(), zero_format(), 1, f.numerator as u64, f2 + (f3 + Seq::empty()));
    let m1 = FrameFormat { numerator: f.numerator, denominator: 0, drop_frame: false };
    lemma_merge_varint(format_step(), m1, 2, f.denominator as u64, f3 + Seq::empty());
    let m2 = FrameFormat { numerator: f.numerator, denominator: f.denominator, drop_frame: false };
    lemma_merge_varint(format_step(), m2, 3, d, Seq::empty());
}

proof fn lemma_anchor_roundtrip(a: Anchor)
    ensures
        merge_anchor_spec(zero_anchor(), encode_anchor_spec(a)) == Some(a),
        encode_anchor_spec(a).len() <= 77,
{
    let f1 = varint_field(1, a.time_ns);
    let pos_bytes = match a.position {
        Some(p) => Some(encode_position_spec(p)),
        None => None,
    };
    let rate_bytes = match a.rate {
        Some(r) => Some(encode_rate_spec(r)),
        None => None,
    };
    let f2 = message_field(2, pos_bytes);
    let f3 = message_field(3, rate_bytes);
    lemma_varint_field_len(1, a.time_ns);
    assert(encode_anchor_spec(a) =~= f1 + (f2 + (f3 + Seq::empty())));
    lemma_merge_varint(anchor_step(), zero_anchor(), 1, a.time_ns, f2 + (f3 + Seq::empty()));
    let m1 = Anchor { time_ns: a.time_ns, position: None, rate: None };
    let m2 = Anchor { time_ns: a.time_ns, position: a.position, rate: None };
    match a.position {
        Some(p) => {
            lemma_position_roundtrip(p);
            lemma_len_field_len(2, encode_position_spec(p));
            lemma_merge_len(anchor_step(), m1, 2, encode_position_spec(p), f3 + Seq::empty());
        },
        None => {
            assert(f2 + (f3 + Seq::empty()) =~= f3 + Seq::empty());
        },
    }
    match a.rate {
        Some(r) => {
            lemma_rate_roundtrip(r);
            lemma_len_field_len(3, encode_rate_spec(r));
            lemma_merge_len(anchor_step(), m2, 3, encode_rate_spec(r), Seq::empty());
        },
        None => {
            assert(f3 + Seq::empty() =~= Seq::<u8>::empty());
        },
    }
}

proof fn lemma_scheduled_roundtrip(c: ScheduledChange)
    ensures
        merge_scheduled_spec(zero_scheduled(), encode_scheduled_spec(c)) == Some(c),
        encode_scheduled_spec(c).len() <= 99,
{
    let f1 = varint_field(1, c.discontinuity);
    let f2 = message_field(
        2,
        match c.anchor {
            Some(a) => Some(encode_anchor_spec(a)),
            None => None,
        },
    );
    lemma_varint_field_len(1, c.discontinuity);
    assert(encode_scheduled_spec(c) =~= f1 + (f2 + Seq::empty()));
    lemma_merge_varint(scheduled_step(), zero_scheduled(), 1, c.discontinuity, f2 + Seq::empty());
    let m1 = ScheduledChange { discontinuity: c.discontinuity, anchor: None };
    match c.anchor {
        Some(a) => {
            lemma_anchor_roundtrip(a);
            lemma_len_field_len(2, encode_anchor_spec(a));
            lemma_merge_len(scheduled_step(), m1, 2, encode_anchor_spec(a), Seq::empty());
        },
        None => {
            assert(f2 + Seq::empty() =~= Seq::<u8>::empty());
        },
    }
}

proof fn lemma_schedule_list_roundtrip(m: SnapshotModel, l: Seq<ScheduledChange>, rest: Seq<u8>)
    ensures
        merge_snapshot_spec(m, encode_schedule_list(l) + rest) == merge_snapshot_spec(
            SnapshotModel { scheduled: m.scheduled + l, ..m },
            rest,
        ),
    decreases l.len(),
{
    if l.len() == 0 {
        assert(encode_schedule_list(l) + rest =~= rest);
        assert(m.scheduled + l =~= m.scheduled);
        assert(SnapshotModel { scheduled: m.scheduled + l, ..m } == m);
    } else {
        let last = l.last();
        let payload = encode_scheduled_spec(last);
        let tail = len_field(9, payload) + rest;
        assert(encode_schedule_list(l) + rest =~= encode_schedule_list(l.drop_last()) + tail);
        lemma_schedule_list_roundtrip(m, l.drop_last(), tail);
        let m1 = SnapshotModel { scheduled: m.scheduled + l.drop_last(), ..m };
        lemma_scheduled_roundtrip(last);
        lemma_merge_len(snapshot_step(), m1, 9, payload, rest);
        assert(m1.scheduled.push(last) =~= m.scheduled + l);
    }
}

proof fn lemma_snapshot_head(s: SnapshotModel, tail: Seq<u8>)
    requires
        s.session.len() < 0x1_0000_0000_0000_0000,
    ensures
        merge_snapshot_spec(
            zero_snapshot(),
            varint_field(1, s.version as u64) + (bytes_field(2, s.session) + (varint_field(
                3,
                s.revision,
            ) + tail)),
        ) == merge_snapshot_spec(
            SnapshotModel {
                version: s.version,
                session: s.session,
                revision: s.revision,
                ..zero_snapshot()
            },
            tail,
        ),
{
    lemma_cast_roundtrips(0, s.version, 0);
    let st = snapshot_step();
    let z = zero_snapshot();
    let f2 = bytes_field(2, s.session);
    let f3 = varint_field(3, s.revision);
    lemma_merge_varint(st, z, 1, s.version as u64, f2 + (f3 + tail));
    let m1 = SnapshotModel { version: s.version, ..z };
    if s.session.len() == 0 {
        assert(f2 + (f3 + tail) =~= f3 + tail);
        assert(s.session =~= Seq::<u8>::empty());
    } else {
        lemma_merge_len(st, m1, 2, s.session, f3 + tail);
    }
    let m2 = SnapshotModel { session: s.session, ..m1 };
    lemma_merge_varint(st, m2, 3, s.revision, tail);
}

proof fn lemma_snapshot_middle(m: SnapshotModel, s: SnapshotModel, tail: Seq<u8>)
    requires
        m.discontinuity == 0,
        m.source_kind == 0,
        m.source_health == 0,
    ensures
        merge_snapshot_spec(
            m,
            varint_field(4, s.discontinuity) + (varint_field(5, s.source_kind as u64) + (
            varint_field(6, s.source_health as u64) + tail)),
        ) == merge_snapshot_spec(
            SnapshotModel {
                discontinuity: s.discontinuity,
                source_kind: s.source_kind,
                source_health: s.source_health,
                ..m
            },
            tail,
        ),
{
    lemma_cast_roundtrips(0, 0, s.source_kind);
    lemma_cast_roundtrips(0, 0, s.source_health);
    let st = snapshot_step();
    let f5 = varint_field(5, s.source_kind as u64);
    let f6 = varint_field(6, s.source_health as u64);
    lemma_merge_varint(st, m, 4, s.discontinuity, f5 + (f6 + tail));
    let m4 = SnapshotModel { discontinuity: s.discontinuity, ..m };
    lemma_merge_varint(st, m4, 5, s.source_kind as u64, f6 + tail);
    let m5 = SnapshotModel { source_kind: s.source_kind, ..m4 };
    lemma_merge_varint(st, m5, 6, s.source_health as u64, tail);
}

proof fn lemma_snapshot_messages(m: SnapshotModel, s: SnapshotModel)
    requires
        m.format is None,
        m.anchor is None,
    ensures
        merge_snapshot_spec(
            m,
            message_field(
                7,
                match s.format {
                    Some(f) => Some(encode_format_spec(f)),
                    None => None,
                },
            ) + (message_field(
                8,
                match s.anchor {
                    Some(a) => Some(encode_anchor_spec(a)),
                    None => None,
                },
            ) + (encode_schedule_list(s.scheduled) + Seq::empty())),
        ) == Some(
            SnapshotModel {
                format: s.format,
                anchor: s.anchor,
                scheduled: m.scheduled + s.scheduled,
                ..m
            },
        ),
{
    let st = snapshot_step();
    let e = Seq::<u8>::empty();
    let f8 = message_field(
        8,
        match s.anchor {
            Some(a) => Some(encode_anchor_spec(a)),
            None => None,
        },
    );
    let f9 = encode_schedule_list(s.scheduled);
    let m6 = SnapshotModel { format: m.format, ..m };
    match s.format {
        Some(f) => {
            lemma_format_roundtrip(f);
            lemma_merge_len(st, m, 7, encode_format_spec(f), f8 + (f9 + e));
        },
        None => {
            assert(message_field(7, None) + (f8 + (f9 + e)) =~= f8 + (f9 + e));
        },
    }
    let m7 = SnapshotModel { format: s.format, ..m };
    match s.anchor {
        Some(a) => {
            lemma_anchor_roundtrip(a);
            lemma_merge_len(st, m7, 8, encode_anchor_spec(a), f9 + e);
        },
        None => {
            assert(f8 + (f9 + e) =~= f9 + e);
        },
    }
    let m8 = SnapshotModel { anchor: s.anchor, ..m7 };
    lemma_schedule_list_roundtrip(m8, s.scheduled, e);
}

proof fn lemma_regroup(
    f1: Seq<u8>,
    f2: Seq<u8>,
    f3: Seq<u8>,
    f4: Seq<u8>,
    f5: Seq<u8>,
    f6: Seq<u8>,
    f7: Seq<u8>,
    f8: Seq<u8>,
    f9: Seq<u8>,
)
    ensures
        f1 + f2 + f3 + f4 + f5 + f6 + f7 + f8 + f9 == f1 + (f2 + (f3 + (f4 + (f5 + (f6 + (f7 + (f8
            + (f9 + Seq::<u8>::empty())))))))),
{
    assert(f1 + f2 + f3 + f4 + f5 + f6 + f7 + f8 + f9 =~= f1 + (f2 + (f3 + (f4 + (f5 + (f6 + (f7 + (
    f8 + (f9 + Seq::<u8>::empty())))))))));
}

/// Size bounds of the nested messages.
proof fn lemma_anchor_size(a: Anchor)
    ensures
        encode_anchor_spec(a).len() <= 59,
{
    let pos = match a.position {
        Some(p) => Some(encode_position_spec(p)),
        None => None,
    };
    let rate = match a.rate {
        Some(r) => Some(encode_rate_spec(r)),
        None => None,
    };
    if let Some(p) = a.position {
        lemma_field_lens(1, p.frames as u64, Seq::empty());
        lemma_field_lens(2, p.subframe as u64, Seq::empty());
        lemma_field_lens(2, 0, encode_position_spec(p));
    }
    if let Some(r) = a.rate {
        lemma_field_lens(1, r.numerator as u64, Seq::empty());
        lemma_field_lens(2, r.denominator as u64, Seq::empty());
        lemma_field_lens(3, 0, encode_rate_spec(r));
    }
    lemma_field_lens(1, a.time_ns, Seq::empty());
}

proof fn lemma_schedule_size(l: Seq<ScheduledChange>)
    ensures
        encode_schedule_list(l).len() <= 74 * l.len(),
    decreases l.len(),
{
    if l.len() > 0 {
        lemma_schedule_size(l.drop_last());
        let c = l.last();
        lemma_field_lens(1, c.discontinuity, Seq::empty());
        if let Some(a) = c.anchor {
            lemma_anchor_size(a);
            lemma_field_lens(2, 0, encode_anchor_spec(a));
        }
        lemma_field_lens(9, 0, encode_scheduled_spec(c));
    }
}

/// A snapshot with a 16-byte session and at most four scheduled changes encodes within
/// the 512-byte message limit.
pub proof fn lemma_snapshot_size(s: SnapshotModel)
    requires
        s.session.len() == 16,
        s.scheduled.len() <= 4,
    ensures
        encode_snapshot_spec(s).len() <= 512,
{
    lemma_field_lens(1, s.version as u64, Seq::empty());
    lemma_field_lens(2, 0, s.session);
    lemma_field_lens(3, s.revision, Seq::empty());
    lemma_field_lens(4, s.discontinuity, Seq::empty());
    lemma_field_lens(5, s.source_kind as u64, Seq::empty());
    lemma_field_lens(6, s.source_health as u64, Seq::empty());
    if let Some(f) = s.format {
        lemma_field_lens(1, f.numerator as u64, Seq::empty());
        lemma_field_lens(2, f.denominator as u64, Seq::empty());
        lemma_field_lens(3, if f.drop_frame { 1 } else { 0 }, encode_format_spec(f));
        lemma_field_lens(7, 0, encode_format_spec(f));
    }
    if let Some(a) = s.anchor {
        lemma_anchor_size(a);
        lemma_field_lens(8, 0, encode_anchor_spec(a));
    }
    lemma_schedule_size(s.scheduled);
}

/// Decoding an encoded snapshot gives back the same snapshot.
pub proof fn lemma_snapshot_roundtrip(s: SnapshotModel)
    requires
        s.session.len() < 0x1_0000_0000_0000_0000,
    ensures
        decode_snapshot_spec(encode_snapshot_spec(s)) == Some(s),
{
    let fmt = match s.format {
        Some(f) => Some(encode_format_spec(f)),
        None => None,
    };
    let anc = match s.anchor {
        Some(a) => Some(encode_anchor_spec(a)),
        None => None,
    };
    let e = Seq::<u8>::empty();
    let u = message_field(7, fmt) + (message_field(8, anc) + (encode_schedule_list(s.scheduled) + e));
    let t = varint_field(4, s.discontinuity) + (varint_field(5, s.source_kind as u64) + (
    varint_field(6, s.source_health as u64) + u));
    let f1 = varint_field(1, s.version as u64);
    let f2 = bytes_field(2, s.session);
    let f3 = varint_field(3, s.revision);
    let f4 = varint_field(4, s.discontinuity);
    let f5 = varint_field(5, s.source_kind as u64);
    let f6 = varint_field(6, s.source_health as u64);
    let f7 = message_field(7, fmt);
    let f8 = message_field(8, anc);
    let f9 = encode_schedule_list(s.scheduled);
    assert(encode_snapshot_spec(s) == f1 + f2 + f3 + f4 + f5 + f6 + f7 + f8 + f9);
    lemma_regroup(f1, f2, f3, f4, f5, f6, f7, f8, f9);
    lemma_snapshot_head(s, t);
    let m3 = SnapshotModel {
        version: s.version,
        session: s.session,
        revision: s.revision,
        ..zero_snapshot()
    };
    lemma_snapshot_middle(m3, s, u);
    let m6 = SnapshotModel {
        discontinuity: s.discontinuity,
        source_kind: s.source_kind,
        source_health: s.source_health,
        ..m3
    };
    lemma_snapshot_messages(m6, s);
    assert(m6.scheduled + s.scheduled =~= s.scheduled);
}

/// Decoding an encoded probe gives back the same probe.
pub proof fn lemma_probe_roundtrip(p: Probe)
    ensures
        decode_probe_spec(encode_probe_spec(p)) == Some(p),
{
    let f1 = varint_field(1, p.version as u64);
    let f2 = varint_field(2, p.sequence);
    let f3 = varint_field(3, p.t1);
    let f4 = varint_field(4, p.t2);
    let f5 = varint_field(5, p.t3);
    let e = Seq::<u8>::empty();
    assert(encode_probe_spec(p) =~= f1 + (f2 + (f3 + (f4 + (f5 + e)))));
    lemma_cast_roundtrips(0, p.version, 0);
    let st = probe_step();
    lemma_merge_varint(st, zero_probe(), 1, p.version as u64, f2 + (f3 + (f4 + (f5 + e))));
    let m1 = Probe { version: p.version, ..zero_probe() };
    lemma_merge_varint(st, m1, 2, p.sequence, f3 + (f4 + (f5 + e)));
    let m2 = Probe { sequence: p.sequence, ..m1 };
    lemma_merge_varint(st, m2, 3, p.t1, f4 + (f5 + e));
    let m3 = Probe { t1: p.t1, ..m2 };
    lemma_merge_varint(st, m3, 4, p.t2, f5 + e);
    let m4 = Probe { t2: p.t2, ..m3 };
    lemma_merge_varint(st, m4, 5, p.t3, e);
}

} // verus!
