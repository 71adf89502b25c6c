//! Protocol Buffers framing: LEB128 varints and field keys over byte sequences.
use vstd::prelude::*;

use crate::Error;

verus! {

/// Declares the error type of the varint decoder.
#[verifier::external_type_specification]
#[verifier::external_body]
pub struct ExDecodeError(prost::DecodeError);

/// The LEB128 bytes of `v`: seven bits per byte, least significant first, with the high
/// bit set on every byte but the last.
pub open spec fn varint_seq(v: nat) -> Seq<u8>
    decreases v,
{
    if v < 128 {
        seq![v as u8]
    } else {
        seq![(v % 128 + 128) as u8] + varint_seq(v / 128)
    }
}

/// Reads one LEB128 varint from the start of `s` as the `depth`-th byte onward; at most
/// ten bytes in all, and a tenth byte may only carry the top bit of a 64-bit value.
/// Gives the value and the number of bytes read.
pub open spec fn varint_scan(s: Seq<u8>, depth: nat) -> Option<(nat, nat)>
    decreases s.len(),
{
    if depth >= 10 || s.len() == 0 {
        None
    } else if s[0] < 128 {
        if depth == 9 && s[0] >= 2 {
            None
        } else {
            Some((s[0] as nat, 1))
        }
    } else {
        match varint_scan(s.drop_first(), depth + 1) {
            Some((v, n)) => Some((((s[0] - 128) + 128 * v) as nat, n + 1)),
            None => None,
        }
    }
}

/// The varint at the start of `s`, if there is a valid one.
pub open spec fn varint_decode(s: Seq<u8>) -> Option<(nat, nat)> {
    varint_scan(s, 0)
}

/// Largest value plus one that a varint starting at byte `depth` can carry.
pub open spec fn varint_cap(depth: nat) -> nat
    decreases 9 - depth,
{
    if depth >= 9 {
        2
    } else {
        128 * varint_cap(depth + 1)
    }
}

pub proof fn lemma_varint_cap()
    ensures
        varint_cap(0) == 0x1_0000_0000_0000_0000,
{
    reveal_with_fuel(varint_cap, 10);
}

/// Every varint scanned from any depth is below the cap for that depth and uses a byte.
pub proof fn lemma_varint_scan_bound(s: Seq<u8>, depth: nat)
    ensures
        varint_scan(s, depth) matches Some((v, n)) ==> v < varint_cap(depth) && 1 <= n <= s.len()
            && n + depth <= 10,
    decreases s.len(),
{
    lemma_varint_cap_pos(depth);
    if depth < 10 && s.len() > 0 && s[0] >= 128 {
        lemma_varint_scan_bound(s.drop_first(), depth + 1);
        if let Some((v, n)) = varint_scan(s.drop_first(), depth + 1) {
            assert(depth < 9);
            assert(varint_cap(depth) == 128 * varint_cap(depth + 1));
            assert((s[0] - 128) + 128 * v < 128 * varint_cap(depth + 1)) by (nonlinear_arith)
                requires
                    0 <= s[0] - 128 < 128,
                    v < varint_cap(depth + 1),
            ;
        }
    }
    if depth < 10 && s.len() > 0 && s[0] < 128 && depth < 9 {
        assert(varint_cap(depth) == 128 * varint_cap(depth + 1));
        lemma_varint_cap_pos(depth + 1);
    }
}

pub proof fn lemma_varint_cap_pos(depth: nat)
    ensures
        varint_cap(depth) >= 2,
    decreases 9 - depth,
{
    if depth < 9 {
        lemma_varint_cap_pos(depth + 1);
    }
}

/// The bytes that `varint_seq` writes scan back to the same value and length, whatever
/// follows them.
pub proof fn lemma_varint_roundtrip(v: nat, rest: Seq<u8>, depth: nat)
    requires
        v < varint_cap(depth),
        depth <= 9,
    ensures
        varint_scan(varint_seq(v) + rest, depth) == Some((v, varint_seq(v).len())),
        1 <= varint_seq(v).len() <= 10 - depth,
    decreases v,
{
    let s = varint_seq(v) + rest;
    if v < 128 {
        assert(s[0] == v as u8);
    } else {
        assert(depth < 9) by {
            if depth >= 9 {
                assert(varint_cap(depth) == 2);
            }
        }
        assert(v / 128 < varint_cap(depth + 1));
        lemma_varint_roundtrip(v / 128, rest, depth + 1);
        assert(s.drop_first() =~= varint_seq(v / 128) + rest);
        assert(s[0] == (v % 128 + 128) as u8);
    }
}

/// A valid varint reads the same from any longer sequence.
pub proof fn lemma_varint_prefix(s: Seq<u8>, t: Seq<u8>, depth: nat)
    requires
        varint_scan(s, depth) is Some,
    ensures
        varint_scan(s + t, depth) == varint_scan(s, depth),
    decreases s.len(),
{
    let st = s + t;
    assert(st[0] == s[0]);
    if s[0] >= 128 {
        assert(st.drop_first() =~= s.drop_first() + t);
        lemma_varint_prefix(s.drop_first(), t, depth + 1);
    }
}

/// A field's payload as the wire type presents it.
pub enum WireValue {
    /// Wire type 0.
    Varint(u64),
    /// Wire type 2.
    Bytes(Seq<u8>),
    /// Wire types 1 and 5, whose contents no field of this schema reads.
    Fixed,
    /// A group (wire type 3), which no field of this schema has; it is skipped whole.
    Group,
}

/// How many bytes of `bytes` remain once prost's `skip_field` has skipped a group with
/// field number `tag` whose start key was just read; none when the group is malformed.
pub uninterp spec fn group_rest(tag: u32, bytes: Seq<u8>) -> Option<nat>;

/// `prost::encoding::skip_field` on a group, with a fresh decode context: the contract
/// names what remains of the buffer, which is never more than it was.
#[verifier::external_body]
fn skip_group(tag: u32, bytes: &[u8]) -> (r: Option<usize>)
    ensures
        match r {
            Some(m) => group_rest(tag, bytes@) == Some(m as nat) && m <= bytes@.len(),
            None => group_rest(tag, bytes@) is None,
        },
{
    let mut buf = bytes;
    match prost::encoding::skip_field(
        prost::encoding::WireType::StartGroup,
        tag,
        &mut buf,
        prost::encoding::DecodeContext::default(),
    ) {
        Ok(()) => Some(buf.len()),
        Err(_) => None,
    }
}

/// Reads one field: its key (tag and wire type) and its payload. Gives the tag, the
/// payload and the number of bytes read; a group is skipped as prost skips it. Keys above
/// 32 bits, tag 0, wire types 6 and 7, a stray group end, malformed groups, truncated
/// payloads and invalid varints are malformed.
pub open spec fn parse_field(s: Seq<u8>) -> Option<(nat, WireValue, nat)> {
    match varint_decode(s) {
        None => None,
        Some((key, kn)) => {
            let tag = key / 8;
            let wire = key % 8;
            let rest = s.skip(kn as int);
            if key > u32::MAX || tag == 0 {
                None
            } else if wire == 0 {
                match varint_decode(rest) {
                    Some((v, vn)) => Some((tag, WireValue::Varint(v as u64), kn + vn)),
                    None => None,
                }
            } else if wire == 1 {
                if rest.len() >= 8 {
                    Some((tag, WireValue::Fixed, kn + 8))
                } else {
                    None
                }
            } else if wire == 5 {
                if rest.len() >= 4 {
                    Some((tag, WireValue::Fixed, kn + 4))
                } else {
                    None
                }
            } else if wire == 3 {
                match group_rest(tag as u32, rest) {
                    Some(m) => if m <= rest.len() {
                        Some((tag, WireValue::Group, (kn + rest.len() - m) as nat))
                    } else {
                        None
                    },
                    None => None,
                }
            } else if wire == 2 {
                match varint_decode(rest) {
                    Some((len, ln)) => if ln + len <= rest.len() {
                        Some(
                            (
                                tag,
                                WireValue::Bytes(rest.subrange(ln as int, (ln + len) as int)),
                                kn + ln + len,
                            ),
                        )
                    } else {
                        None
                    },
                    None => None,
                }
            } else {
                None
            }
        },
    }
}

/// Key bytes of a field.
pub open spec fn key_seq(tag: nat, wire: nat) -> Seq<u8> {
    varint_seq(tag * 8 + wire)
}

/// A varint field; proto3 omits zero values.
pub open spec fn varint_field(tag: nat, v: u64) -> Seq<u8> {
    if v == 0 {
        Seq::empty()
    } else {
        key_seq(tag, 0) + varint_seq(v as nat)
    }
}

/// A length-delimited field.
pub open spec fn len_field(tag: nat, payload: Seq<u8>) -> Seq<u8> {
    key_seq(tag, 2) + varint_seq(payload.len()) + payload
}

/// A bytes field; proto3 omits empty values.
pub open spec fn bytes_field(tag: nat, payload: Seq<u8>) -> Seq<u8> {
    if payload.len() == 0 {
        Seq::empty()
    } else {
        len_field(tag, payload)
    }
}

/// An optional nested message field.
pub open spec fn message_field(tag: nat, payload: Option<Seq<u8>>) -> Seq<u8> {
    match payload {
        Some(p) => len_field(tag, p),
        None => Seq::empty(),
    }
}

/// A value below the cap at `depth` takes at most `10 - depth` bytes.
proof fn lemma_varint_len_from(v: nat, depth: nat)
    requires
        depth <= 9,
        v < varint_cap(depth),
    ensures
        varint_seq(v).len() <= 10 - depth,
    decreases 9 - depth,
{
    if v >= 128 {
        assert(depth < 9);
        assert(varint_cap(depth) == 128 * varint_cap(depth + 1));
        assert(v / 128 < varint_cap(depth + 1)) by (nonlinear_arith)
            requires
                v < 128 * varint_cap(depth + 1),
        ;
        lemma_varint_len_from(v / 128, depth + 1);
    }
}

/// A 64-bit value takes at most ten bytes, and a value below 128 one byte.
pub proof fn lemma_varint_len(v: nat)
    requires
        v < 0x1_0000_0000_0000_0000,
    ensures
        varint_seq(v).len() <= 10,
        v < 128 ==> varint_seq(v).len() == 1,
{
    lemma_varint_cap();
    lemma_varint_len_from(v, 0);
}

/// A field key of a tag up to 15 takes one byte, a varint field at most eleven, and a
/// length-delimited field two more than a payload shorter than 128 bytes.
pub proof fn lemma_field_lens(tag: nat, v: u64, payload: Seq<u8>)
    requires
        1 <= tag <= 15,
    ensures
        varint_field(tag, v).len() <= 11,
        payload.len() < 128 ==> len_field(tag, payload).len() == payload.len() + 2,
        payload.len() < 128 ==> bytes_field(tag, payload).len() <= payload.len() + 2,
{
    lemma_varint_len(tag * 8);
    lemma_varint_len(tag * 8 + 2);
    lemma_varint_len(v as nat);
    if payload.len() < 128 {
        lemma_varint_len(payload.len());
    }
}

/// A varint field reads back as itself, whatever follows.
pub proof fn lemma_varint_field(tag: nat, v: u64, rest: Seq<u8>)
    requires
        1 <= tag <= 15,
        v != 0,
    ensures
        parse_field(varint_field(tag, v) + rest) == Some(
            (tag, WireValue::Varint(v), varint_field(tag, v).len()),
        ),
        varint_field(tag, v).len() > 0,
        (varint_field(tag, v) + rest).skip(varint_field(tag, v).len() as int) =~= rest,
{
    let key = tag * 8;
    lemma_varint_cap();
    lemma_varint_roundtrip(key, varint_seq(v as nat) + rest, 0);
    assert(varint_field(tag, v) + rest =~= varint_seq(key) + (varint_seq(v as nat) + rest));
    assert(varint_seq(key).len() == 1);
    lemma_varint_roundtrip(v as nat, rest, 0);
    let s = varint_field(tag, v) + rest;
    assert(s.skip(1) =~= varint_seq(v as nat) + rest);
}

/// A length-delimited field reads back as its payload, whatever follows.
pub proof fn lemma_len_field(tag: nat, payload: Seq<u8>, rest: Seq<u8>)
    requires
        1 <= tag <= 15,
        payload.len() < 0x1_0000_0000_0000_0000,
    ensures
        parse_field(len_field(tag, payload) + rest) == Some(
            (tag, WireValue::Bytes(payload), len_field(tag, payload).len()),
        ),
        len_field(tag, payload).len() > 0,
        (len_field(tag, payload) + rest).skip(len_field(tag, payload).len() as int) =~= rest,
{
    let key = tag * 8 + 2;
    let ls = varint_seq(payload.len());
    lemma_varint_cap();
    lemma_varint_roundtrip(key, ls + payload + rest, 0);
    let s = len_field(tag, payload) + rest;
    assert(s =~= varint_seq(key) + (ls + payload + rest));
    assert(varint_seq(key).len() == 1);
    lemma_varint_roundtrip(payload.len(), payload + rest, 0);
    assert(s.skip(1) =~= ls + (payload + rest));
    let r = s.skip(1);
    assert(r.subrange(ls.len() as int, (ls.len() + payload.len()) as int) =~= payload);
    assert(s.skip((1 + ls.len() + payload.len()) as int) =~= rest);
}

/// Decodes one varint from the start of `bytes` with `prost::encoding::decode_varint`,
/// which reads LEB128 up to ten bytes, rejects a value above 64 bits, and advances past
/// exactly the bytes it read. The contract claims that it reads what `varint_decode`
/// describes and leaves the rest of the slice.
#[verifier::external_body]
fn decode_varint<'a>(bytes: &'a [u8]) -> (r: Result<(u64, &'a [u8]), prost::DecodeError>)
    ensures
        match r {
            Ok((v, rest)) => varint_decode(bytes@) == Some(
                (v as nat, (bytes@.len() - rest@.len()) as nat),
            ) && rest@.len() < bytes@.len() && rest@ == bytes@.skip(bytes@.len() - rest@.len()),
            Err(_) => varint_decode(bytes@) is None,
        },
{
    let mut buf = bytes;
    let value = prost::encoding::decode_varint(&mut buf)?;
    Ok((value, buf))
}

/// Appends the LEB128 bytes of `value` with `prost::encoding::encode_varint`; the contract
/// claims it appends exactly `varint_seq(value)`.
#[verifier::external_body]
fn encode_varint(value: u64, buf: &mut Vec<u8>)
    ensures
        final(buf)@ == old(buf)@ + varint_seq(value as nat),
{
    prost::encoding::encode_varint(value, buf)
}

/// The next field of a message.
pub enum FieldValue<'a> {
    Varint(u64),
    Bytes(&'a [u8]),
    Fixed,
    Group,
}

pub open spec fn field_view(v: FieldValue) -> WireValue {
    match v {
        FieldValue::Varint(x) => WireValue::Varint(x),
        FieldValue::Bytes(b) => WireValue::Bytes(b@),
        FieldValue::Fixed => WireValue::Fixed,
        FieldValue::Group => WireValue::Group,
    }
}

/// Reads the field at the start of `s`, returning its tag, payload and the bytes after it.
pub fn read_field<'a>(s: &'a [u8]) -> (r: Result<(u64, FieldValue<'a>, &'a [u8]), Error>)
    ensures
        match r {
            Ok((tag, v, rest)) => parse_field(s@) == Some(
                (tag as nat, field_view(v), (s@.len() - rest@.len()) as nat),
            ) && rest@ =~= s@.skip(s@.len() - rest@.len()) && rest@.len() < s@.len(),
            Err(e) => parse_field(s@) is None && e == Error::Decode,
        },
{
    let (key, tail) = match decode_varint(s) {
        Ok(x) => x,
        Err(_) => return Err(Error::Decode),
    };
    let ghost kn = (s@.len() - tail@.len()) as nat;
    proof {
        lemma_varint_scan_bound(s@, 0);
        assert(tail@ == s@.skip(kn as int));
    }
    if key > 0xffff_ffff || key / 8 == 0 {
        return Err(Error::Decode);
    }
    let tag = key / 8;
    let wire = key % 8;
    if wire == 0 {
        let (v, rest) = match decode_varint(tail) {
            Ok(x) => x,
            Err(_) => return Err(Error::Decode),
        };
        proof {
            lemma_varint_scan_bound(tail@, 0);
            assert(tail@ == s@.skip(kn as int));
            assert(rest@ =~= s@.skip(s@.len() - rest@.len()));
        }
        Ok((tag, FieldValue::Varint(v), rest))
    } else if wire == 1 {
        if tail.len() < 8 {
            return Err(Error::Decode);
        }
        let (_, rest) = tail.split_at(8);
        assert(rest@ =~= s@.skip(s@.len() - rest@.len()));
        Ok((tag, FieldValue::Fixed, rest))
    } else if wire == 5 {
        if tail.len() < 4 {
            return Err(Error::Decode);
        }
        let (_, rest) = tail.split_at(4);
        assert(rest@ =~= s@.skip(s@.len() - rest@.len()));
        Ok((tag, FieldValue::Fixed, rest))
    } else if wire == 2 {
        let (len, after) = match decode_varint(tail) {
            Ok(x) => x,
            Err(_) => return Err(Error::Decode),
        };
        proof {
            lemma_varint_scan_bound(tail@, 0);
        }
        if len > after.len() as u64 {
            return Err(Error::Decode);
        }
        let (payload, rest) = after.split_at(len as usize);
        proof {
            let ln = (tail@.len() - after@.len()) as int;
            assert(payload@ =~= tail@.subrange(ln, ln + len));
            assert(rest@ =~= s@.skip(s@.len() - rest@.len()));
        }
        Ok((tag, FieldValue::Bytes(payload), rest))
    } else if wire == 3 {
        let m = match skip_group(tag as u32, tail) {
            Some(m) => m,
            None => return Err(Error::Decode),
        };
        let (_, rest) = tail.split_at(tail.len() - m);
        assert(rest@ =~= s@.skip(s@.len() - rest@.len()));
        Ok((tag, FieldValue::Group, rest))
    } else {
        Err(Error::Decode)
    }
}

/// Appends a varint field, omitting a zero value.
pub fn put_varint_field(buf: &mut Vec<u8>, tag: u64, v: u64)
    requires
        1 <= tag <= 15,
    ensures
        final(buf)@ == old(buf)@ + varint_field(tag as nat, v),
{
    if v != 0 {
        encode_varint(tag * 8, buf);
        encode_varint(v, buf);
        assert(final(buf)@ =~= old(buf)@ + varint_field(tag as nat, v));
    } else {
        assert(final(buf)@ =~= old(buf)@ + varint_field(tag as nat, v));
    }
}

/// Appends a length-delimited field.
pub fn put_len_field(buf: &mut Vec<u8>, tag: u64, payload: &[u8])
    requires
        1 <= tag <= 15,
    ensures
        final(buf)@ == old(buf)@ + len_field(tag as nat, payload@),
{
    encode_varint(tag * 8 + 2, buf);
    encode_varint(payload.len() as u64, buf);
    let mut i: usize = 0;
    let ghost start = buf@;
    while i < payload.len()
        invariant
            i <= payload@.len(),
            buf@ == start + payload@.take(i as int),
        decreases payload.len() - i,
    {
        buf.push(payload[i]);
        i = i + 1;
        assert(buf@ =~= start + payload@.take(i as int));
    }
    assert(payload@.take(i as int) =~= payload@);
    assert(final(buf)@ =~= old(buf)@ + len_field(tag as nat, payload@));
}

} // verus!
