//! The foreign-language bindings generated from the public API: the C, C++, C# and Swift
//! sources built from the API's signatures, with the identifier case conversions and type
//! names they use, the schema checks on the signatures, and the status codes of the C ABI.
use vstd::prelude::*;

pub mod c;
pub mod api;
pub mod apple;
pub mod cpp;
pub mod csharp;
pub mod ffi;
pub mod glue;
pub mod schema;
pub mod sig;
pub mod wrappers;

verus! {

/// Whether `c` is upper case, by the Unicode property `char::is_uppercase` reads.
pub uninterp spec fn unicode_is_uppercase(c: char) -> bool;

/// The Unicode upper-case mapping of `c`, as `char::to_uppercase` yields it.
pub uninterp spec fn unicode_upper(c: char) -> Seq<char>;

/// The Unicode lower-case mapping of `c`, as `char::to_lowercase` yields it.
pub uninterp spec fn unicode_lower(c: char) -> Seq<char>;

/// `char::is_uppercase`; the contract names its result.
#[verifier::external_body]
pub(crate) fn is_uppercase(c: char) -> (r: bool)
    ensures
        r == unicode_is_uppercase(c),
{
    c.is_uppercase()
}

/// `char::to_uppercase`, collected; the contract names its result.
#[verifier::external_body]
pub(crate) fn to_uppercase(c: char) -> (r: String)
    ensures
        r@ == unicode_upper(c),
{
    c.to_uppercase().collect()
}

/// `char::to_lowercase`, collected; the contract names its result.
#[verifier::external_body]
pub(crate) fn to_lowercase(c: char) -> (r: String)
    ensures
        r@ == unicode_lower(c),
{
    c.to_lowercase().collect()
}

/// Whether two strings hold the same characters.
pub fn same_text(a: &str, b: &str) -> (r: bool)
    ensures
        r == (a@ == b@),
{
    let n = a.unicode_len();
    if n != b.unicode_len() {
        return false;
    }
    let mut i: usize = 0;
    while i < n
        invariant
            n == a@.len(),
            n == b@.len(),
            i <= n,
            forall|j: int| 0 <= j < i ==> a@[j] == b@[j],
        decreases n - i,
    {
        if a.get_char(i) != b.get_char(i) {
            return false;
        }
        i = i + 1;
    }
    assert(a@ =~= b@);
    true
}

/// The name the binding generators give the Rust type `t` in a function's name suffix.
pub open spec fn suffix_spec(t: Seq<char>) -> Seq<char> {
    if t == "()"@ {
        "Unit"@
    } else if t == "Vec<u8>"@ {
        "Bytes"@
    } else {
        t
    }
}

pub fn suffix(t: &str) -> (r: String)
    ensures
        r@ == suffix_spec(t@),
{
    if same_text(t, "()") {
        "Unit".to_owned()
    } else if same_text(t, "Vec<u8>") {
        "Bytes".to_owned()
    } else {
        t.to_owned()
    }
}

} // verus!
