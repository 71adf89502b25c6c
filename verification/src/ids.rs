//! Random identifiers and their text, from the `uuid` crate.
use vstd::prelude::*;

use crate::text::hex_lower;

verus! {

/// The hyphenated lower-case text of a UUID's 16 bytes: 8-4-4-4-12 hexadecimal digits.
pub open spec fn uuid_text(b: Seq<u8>) -> Seq<char> {
    hex_lower(b.subrange(0, 4)) + seq!['-'] + hex_lower(b.subrange(4, 6)) + seq!['-'] + hex_lower(
        b.subrange(6, 8),
    ) + seq!['-'] + hex_lower(b.subrange(8, 10)) + seq!['-'] + hex_lower(b.subrange(10, 16))
}

/// `uuid::Uuid::new_v4`: sixteen random bytes. The contract claims only the two fields the
/// crate sets: version 4 in the high nibble of byte 6 and the RFC variant (binary 10) in
/// the top bits of byte 8; the other bits are random.
#[verifier::external_body]
pub(crate) fn uuid_v4() -> (r: [u8; 16])
    ensures
        r@[6] / 16 == 4,
        r@[8] / 64 == 2,
{
    *uuid::Uuid::new_v4().as_bytes()
}

/// `uuid::Uuid::from_bytes` then `to_string`: the UUID's `Display` form, which the crate
/// writes as hyphenated lower-case hexadecimal of the bytes in order.
#[verifier::external_body]
pub(crate) fn uuid_string(bytes: [u8; 16]) -> (r: String)
    ensures
        r@ == uuid_text(bytes@),
{
    uuid::Uuid::from_bytes(bytes).to_string()
}

} // verus!
