//! Certificate fingerprints and pins.
use vstd::prelude::*;

use sha2::{Digest, Sha256};

use crate::text::{decimal, hex_lower, push_decimal, push_str, to_hex};
use vstd::string::StringSliceAdditionalSpecFns;
use vstd::utf8::encode_utf8;

verus! {

/// Errors of the transport layer.
#[derive(Clone, Debug)]
pub enum TransportError {
    Invalid(&'static str),
    Quic(String),
    Closed { code: u64, reason: String },
    Reset(u64),
    Stop(u64),
    Http3 { code: u64, reason: String },
    Web(String),
}

/// The description of a transport error.
pub open spec fn transport_error_text(e: TransportError) -> Seq<char> {
    match e {
        TransportError::Invalid(m) => m@,
        TransportError::Quic(m) => "QUIC: "@ + m@,
        TransportError::Closed { code, reason } => "application closed ("@ + decimal(code as nat)
            + "): "@ + reason@,
        TransportError::Reset(code) => "stream reset ("@ + decimal(code as nat) + ")"@,
        TransportError::Stop(code) => "stream stopped ("@ + decimal(code as nat) + ")"@,
        TransportError::Http3 { code, reason } => "HTTP/3 ("@ + decimal(code as nat) + "): "@
            + reason@,
        TransportError::Web(m) => "WebTransport: "@ + m@,
    }
}

impl TransportError {
    pub fn to_string(&self) -> (r: String)
        ensures
            r@ == transport_error_text(*self),
    {
        let mut s = String::new();
        match self {
            TransportError::Invalid(m) => push_str(&mut s, m),
            TransportError::Quic(m) => {
                push_str(&mut s, "QUIC: ");
                push_str(&mut s, m.as_str());
            },
            TransportError::Closed { code, reason } => {
                push_str(&mut s, "application closed (");
                push_decimal(&mut s, *code);
                push_str(&mut s, "): ");
                push_str(&mut s, reason.as_str());
            },
            TransportError::Reset(code) => {
                push_str(&mut s, "stream reset (");
                push_decimal(&mut s, *code);
                push_str(&mut s, ")");
            },
            TransportError::Stop(code) => {
                push_str(&mut s, "stream stopped (");
                push_decimal(&mut s, *code);
                push_str(&mut s, ")");
            },
            TransportError::Http3 { code, reason } => {
                push_str(&mut s, "HTTP/3 (");
                push_decimal(&mut s, *code);
                push_str(&mut s, "): ");
                push_str(&mut s, reason.as_str());
            },
            TransportError::Web(m) => {
                push_str(&mut s, "WebTransport: ");
                push_str(&mut s, m.as_str());
            },
        }
        assert(s@ =~= transport_error_text(*self));
        s
    }

    /// The application close code and reason a session reports, when the code fits 32 bits.
    pub fn session_error(&self) -> (r: Option<(u32, String)>)
        ensures
            match *self {
                TransportError::Closed { code, reason } => if code <= u32::MAX {
                    r matches Some((c, t)) && c == code && t@ == reason@
                } else {
                    r is None
                },
                _ => r is None,
            },
    {
        match self {
            TransportError::Closed { code, reason } => if *code <= 0xffff_ffff {
                Some((*code as u32, reason.clone()))
            } else {
                None
            },
            _ => None,
        }
    }

    /// The code a reset or stopped stream reports, when it fits 32 bits.
    pub fn stream_error(&self) -> (r: Option<u32>)
        ensures
            match *self {
                TransportError::Reset(code) | TransportError::Stop(code) => if code <= u32::MAX {
                    r == Some(code as u32)
                } else {
                    r is None
                },
                _ => r is None,
            },
    {
        match self {
            TransportError::Reset(code) | TransportError::Stop(code) => if *code <= 0xffff_ffff {
                Some(*code as u32)
            } else {
                None
            },
            _ => None,
        }
    }
}

/// The SHA-256 digest of `data`.
pub uninterp spec fn sha256(data: Seq<u8>) -> Seq<u8>;

/// Hashes `data` with `sha2::Sha256::digest`; the contract claims only that the result is
/// the SHA-256 digest of the input (named, not computed here) and, as the type `U32` of the
/// output fixes, 32 bytes long.
#[verifier::external_body]
fn sha256_digest(data: &[u8]) -> (r: Vec<u8>)
    ensures
        r@ == sha256(data@),
        r@.len() == 32,
{
    Sha256::digest(data).to_vec()
}

/// Lower-case hexadecimal SHA-256 of a DER certificate.
pub fn fingerprint(cert: &[u8]) -> (r: String)
    ensures
        r@ == hex_lower(sha256(cert@)),
{
    let digest = sha256_digest(cert);
    to_hex(digest.as_slice())
}

/// An ASCII hexadecimal digit, either case.
pub open spec fn is_hex_digit(b: u8) -> bool {
    (48 <= b <= 57) || (65 <= b <= 70) || (97 <= b <= 102)
}

/// A pin is exactly 64 hexadecimal digits.
pub open spec fn pin_valid(bytes: Seq<u8>) -> bool {
    bytes.len() == 64 && forall|i: int| 0 <= i < 64 ==> is_hex_digit(#[trigger] bytes[i])
}

pub fn validate_pin(pin: &str) -> (r: Result<(), TransportError>)
    ensures
        r is Ok <==> pin_valid(pin.spec_bytes()),
        r matches Err(e) ==> e matches TransportError::Invalid(m) && m
            == "certificate pin must contain 64 hexadecimal digits",
{
    let bytes = pin.as_bytes();
    if bytes.len() != 64 {
        return Err(TransportError::Invalid("certificate pin must contain 64 hexadecimal digits"));
    }
    let mut i: usize = 0;
    while i < 64
        invariant
            bytes@ == pin.spec_bytes(),
            bytes@.len() == 64,
            i <= 64,
            forall|j: int| 0 <= j < i ==> is_hex_digit(#[trigger] bytes@[j]),
        decreases 64 - i,
    {
        let b = bytes[i];
        if !((48 <= b && b <= 57) || (65 <= b && b <= 70) || (97 <= b && b <= 102)) {
            return Err(
                TransportError::Invalid("certificate pin must contain 64 hexadecimal digits"),
            );
        }
        i = i + 1;
    }
    Ok(())
}

/// ASCII lower case of a byte.
pub open spec fn ascii_lower(c: u8) -> u8 {
    if 65 <= c <= 90 {
        (c + 32) as u8
    } else {
        c
    }
}

/// `str::eq_ignore_ascii_case` on the strings' bytes: the same length, and the same bytes
/// once ASCII letters are lowered.
pub open spec fn eq_ignore_ascii_case(a: Seq<u8>, b: Seq<u8>) -> bool {
    a.len() == b.len() && forall|i: int| 0 <= i < a.len() ==> ascii_lower(#[trigger] a[i])
        == ascii_lower(b[i])
}

fn lower(c: u8) -> (r: u8)
    ensures
        r == ascii_lower(c),
{
    if 65 <= c && c <= 90 {
        c + 32
    } else {
        c
    }
}

fn same_ignoring_case(a: &[u8], b: &[u8]) -> (r: bool)
    ensures
        r == eq_ignore_ascii_case(a@, b@),
{
    if a.len() != b.len() {
        return false;
    }
    let mut i: usize = 0;
    while i < a.len()
        invariant
            a@.len() == b@.len(),
            i <= a@.len(),
            forall|j: int| 0 <= j < i ==> ascii_lower(#[trigger] a@[j]) == ascii_lower(b@[j]),
        decreases a.len() - i,
    {
        if lower(a[i]) != lower(b[i]) {
            assert(ascii_lower(a@[i as int]) != ascii_lower(b@[i as int]));
            return false;
        }
        i = i + 1;
    }
    true
}

/// Whether a follower accepts the leader's certificate `cert` (DER): always without a pin,
/// otherwise only when the pin is the certificate's fingerprint, in either case.
pub fn certificate_accepted(pin: Option<&str>, cert: &[u8]) -> (r: bool)
    ensures
        r == match pin {
            None => true,
            Some(p) => eq_ignore_ascii_case(p.spec_bytes(), encode_utf8(hex_lower(sha256(cert@)))),
        },
{
    match pin {
        None => true,
        Some(p) => {
            let fp = fingerprint(cert);
            same_ignoring_case(p.as_bytes(), fp.as_str().as_bytes())
        },
    }
}

/// A follower's transport refuses a malformed pin before connecting.
pub fn check_client_pin(pin: Option<&str>) -> (r: Result<(), TransportError>)
    ensures
        r is Ok <==> match pin {
            None => true,
            Some(p) => pin_valid(p.spec_bytes()),
        },
        r matches Err(e) ==> (e matches TransportError::Invalid(m) && m
            == "certificate pin must contain 64 hexadecimal digits"),
{
    match pin {
        None => Ok(()),
        Some(p) => validate_pin(p),
    }
}

/// The fingerprint of a certificate is a valid pin, and a follower pinned to it accepts
/// that certificate.
pub proof fn lemma_fingerprint_is_pin(cert: Seq<u8>)
    requires
        sha256(cert).len() == 32,
    ensures
        pin_valid(encode_utf8(hex_lower(sha256(cert)))),
        eq_ignore_ascii_case(
            encode_utf8(hex_lower(sha256(cert))),
            encode_utf8(hex_lower(sha256(cert))),
        ),
{
    let h = hex_lower(sha256(cert));
    crate::text::lemma_hex_lower_digits(sha256(cert));
    assert(vstd::utf8::is_ascii_chars(h)) by {
        assert forall|i: int| 0 <= i < h.len() implies '\0' <= #[trigger] h[i] <= '\u{7f}' by {
            assert(crate::text::hex_digit_char(h[i]));
        }
    }
    vstd::utf8::is_ascii_chars_encode_utf8(h);
    let b = encode_utf8(h);
    assert forall|i: int| 0 <= i < 64 implies is_hex_digit(#[trigger] b[i]) by {
        assert(h[i] as u8 == b[i]);
        assert(crate::text::hex_digit_char(h[i]));
    }
}

} // verus!