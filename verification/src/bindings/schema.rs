//! The binding schema's rules: how a type is written, what a function returns, and which
//! types a foreign function, its arguments and the records may use. Unsupported types are
//! refused rather than bound in part.
use vstd::prelude::*;

use super::same_text;
use super::wrappers::{amp, base, mut_word, strip_all};
use crate::text::push_char;
use vstd::string::StrSliceExecFns;

verus! {

/// `s` with its spaces removed, the form in which a type's tokens are compared.
pub open spec fn compact_spec(s: Seq<char>) -> Seq<char>
    decreases s.len(),
{
    if s.len() == 0 {
        Seq::empty()
    } else {
        compact_spec(s.drop_last()) + (if s.last() == ' ' {
            Seq::empty()
        } else {
            seq![s.last()]
        })
    }
}

pub fn compact(s: &str) -> (r: String)
    ensures
        r@ == compact_spec(s@),
{
    let n = s.unicode_len();
    let mut r = String::new();
    let mut i: usize = 0;
    while i < n
        invariant
            n == s@.len(),
            i <= n,
            r@ == compact_spec(s@.take(i as int)),
        decreases n - i,
    {
        let c = s.get_char(i);
        proof {
            assert(s@.take(i + 1).drop_last() =~= s@.take(i as int));
        }
        if c != ' ' {
            push_char(&mut r, c);
        }
        i = i + 1;
        assert(r@ =~= compact_spec(s@.take(i as int)));
    }
    assert(s@.take(n as int) =~= s@);
    r
}

/// Whether `s` begins with `p`.
pub fn starts_with(s: &str, p: &str) -> (r: bool)
    ensures
        r == p@.is_prefix_of(s@),
{
    let n = s.unicode_len();
    let m = p.unicode_len();
    if m > n {
        return false;
    }
    let mut i: usize = 0;
    while i < m
        invariant
            n == s@.len(),
            m == p@.len(),
            m <= n,
            i <= m,
            forall|j: int| 0 <= j < i ==> s@[j] == p@[j],
        decreases m - i,
    {
        if s.get_char(i) != p.get_char(i) {
            assert(s@.subrange(0, m as int)[i as int] != p@[i as int]);
            return false;
        }
        i = i + 1;
    }
    assert(p@ =~= s@.subrange(0, m as int));
    true
}

/// The text `Result<`.
pub open spec fn result_prefix() -> Seq<char> {
    seq!['R', 'e', 's', 'u', 'l', 't', '<']
}

/// The type a function returns and whether it can fail: `Result<T>` gives `T` (its text
/// between the prefix and the last character) and `true`; any other type itself and
/// `false`.
pub open spec fn output_spec(t: Seq<char>) -> (Seq<char>, bool) {
    if result_prefix().is_prefix_of(t) {
        (t.subrange(7, t.len() - 1), true)
    } else {
        (t, false)
    }
}

/// The return type `t` (`()` for none), split as `output_spec` says. A `Result<` type must
/// close with a one-byte character, as the text is cut by bytes.
pub fn output(t: &str) -> (r: (String, bool))
    requires
        result_prefix().is_prefix_of(t@) ==> t@.len() >= 8 && (t@.last() as u32) < 0x80,
    ensures
        r.0@ == output_spec(t@).0,
        r.1 == output_spec(t@).1,
{
    proof {
        reveal_strlit("Result<");
        assert("Result<"@ =~= result_prefix());
    }
    if starts_with(t, "Result<") {
        let n = t.unicode_len();
        let inner = t.substring_char(7, n - 1);
        (inner.to_owned(), true)
    } else {
        (t.to_owned(), false)
    }
}

/// The fixed-width primitives and the unit type that the C ABI carries by value.
pub open spec fn primitive_spec(t: Seq<char>) -> bool {
    ||| t == "()"@
    ||| t == "bool"@
    ||| t == "u8"@
    ||| t == "u32"@
    ||| t == "u64"@
    ||| t == "i32"@
    ||| t == "i64"@
    ||| t == "f64"@
}

pub fn primitive(t: &str) -> (r: bool)
    ensures
        r == primitive_spec(t@),
{
    same_text(t, "()") || same_text(t, "bool") || same_text(t, "u8") || same_text(t, "u32")
        || same_text(t, "u64") || same_text(t, "i32") || same_text(t, "i64") || same_text(t, "f64")
}

/// Whether `names` holds `t`.
pub open spec fn named(names: Seq<String>, t: Seq<char>) -> bool {
    exists|i: int| 0 <= i < names.len() && (#[trigger] names[i])@ == t
}

pub fn contains_name(names: &[String], t: &str) -> (r: bool)
    ensures
        r == named(names@, t@),
{
    let mut i: usize = 0;
    while i < names.len()
        invariant
            i <= names@.len(),
            forall|j: int| 0 <= j < i ==> (#[trigger] names@[j])@ != t@,
        decreases names@.len() - i,
    {
        if same_text(names[i].as_str(), t) {
            return true;
        }
        i = i + 1;
    }
    false
}

/// A type a foreign function may return: a primitive, a record, an opaque type, a string
/// or a byte vector.
pub open spec fn valid_return_spec(t: Seq<char>, records: Seq<String>, opaque: Seq<String>) -> bool {
    ||| primitive_spec(t)
    ||| named(records, t)
    ||| named(opaque, t)
    ||| t == "String"@
    ||| t == "Vec<u8>"@
}

pub fn valid_return(t: &str, records: &[String], opaque: &[String]) -> (r: bool)
    ensures
        r == valid_return_spec(t@, records@, opaque@),
{
    primitive(t) || contains_name(records, t) || contains_name(opaque, t) || same_text(t, "String")
        || same_text(t, "Vec<u8>")
}

/// A type a foreign function may take: a primitive but unit, a string slice, a byte slice,
/// or a reference to an opaque type.
pub open spec fn valid_argument_spec(t: Seq<char>, opaque: Seq<String>) -> bool {
    ||| primitive_spec(t) && t != "()"@
    ||| t == "&str"@
    ||| t == "&[u8]"@
    ||| amp().is_prefix_of(t) && named(opaque, strip_all(strip_all(t, amp()), mut_word()))
}

pub fn valid_argument(t: &str, opaque: &[String]) -> (r: bool)
    ensures
        r == valid_argument_spec(t@, opaque@),
{
    proof {
        reveal_strlit("&");
        assert("&"@ =~= amp());
    }
    (primitive(t) && !same_text(t, "()")) || same_text(t, "&str") || same_text(t, "&[u8]") || (
    starts_with(t, "&") && contains_name(opaque, base(t)))
}

/// A type a record field may have: a primitive but unit.
pub open spec fn valid_field_spec(t: Seq<char>) -> bool {
    primitive_spec(t) && t != "()"@
}

pub fn valid_field(t: &str) -> (r: bool)
    ensures
        r == valid_field_spec(t@),
{
    primitive(t) && !same_text(t, "()")
}

} // verus!
