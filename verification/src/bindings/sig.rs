//! The signatures the binding generators read, and the text-building pieces they share.
use vstd::prelude::*;

use crate::text::push_str;

verus! {

/// A public function of the foreign API: its name, its arguments (name and Rust type,
/// with spaces removed), the type it returns (`()` for none, inside `Result` when it can
/// fail) and whether it can fail.
pub struct FnSig {
    pub name: String,
    pub args: Vec<(String, String)>,
    pub ret: String,
    pub fallible: bool,
}

/// A record of the foreign API: its name and its fields (name and type).
pub type Record = (String, Vec<(String, String)>);

/// The pieces, one after another.
pub open spec fn concat(parts: Seq<Seq<char>>) -> Seq<char>
    decreases parts.len(),
{
    if parts.len() == 0 {
        Seq::empty()
    } else {
        concat(parts.drop_last()) + parts.last()
    }
}

/// The pieces, separated by `sep`.
pub open spec fn joined(parts: Seq<Seq<char>>, sep: Seq<char>) -> Seq<char>
    decreases parts.len(),
{
    if parts.len() == 0 {
        Seq::empty()
    } else if parts.len() == 1 {
        parts[0]
    } else {
        joined(parts.drop_last(), sep) + sep + parts.last()
    }
}

pub proof fn lemma_concat_step(parts: Seq<Seq<char>>, k: int)
    requires
        0 <= k < parts.len(),
    ensures
        concat(parts.take(k + 1)) == concat(parts.take(k)) + parts[k],
{
    assert(parts.take(k + 1).drop_last() =~= parts.take(k));
}

pub proof fn lemma_joined_step(parts: Seq<Seq<char>>, sep: Seq<char>, k: int)
    requires
        0 <= k < parts.len(),
    ensures
        joined(parts.take(k + 1), sep) == if k == 0 {
            parts[0]
        } else {
            joined(parts.take(k), sep) + sep + parts[k]
        },
{
    assert(parts.take(k + 1).drop_last() =~= parts.take(k));
}

/// The views of a list of texts.
pub open spec fn views(v: Seq<String>) -> Seq<Seq<char>> {
    v.map_values(|s: String| s@)
}

/// Appends the texts of `parts`, separated by `sep`.
pub fn push_joined(out: &mut String, parts: &Vec<String>, sep: &str)
    ensures
        final(out)@ == old(out)@ + joined(views(parts@), sep@),
{
    let ghost p = views(parts@);
    let ghost start = out@;
    let mut i: usize = 0;
    assert(p.take(0) =~= Seq::<Seq<char>>::empty());
    assert(out@ =~= start + joined(p.take(0), sep@));
    while i < parts.len()
        invariant
            i <= parts@.len(),
            p == views(parts@),
            out@ == start + joined(p.take(i as int), sep@),
        decreases parts@.len() - i,
    {
        proof {
            lemma_joined_step(p, sep@, i as int);
        }
        if i > 0 {
            push_str(out, sep);
        }
        push_str(out, parts[i].as_str());
        i = i + 1;
        assert(out@ =~= start + joined(p.take(i as int), sep@));
    }
    assert(p.take(i as int) =~= p);
}

/// The lower-case form of `s` under the full Unicode mapping, as `str::to_lowercase` gives
/// it (which, unlike a mapping of each character alone, lowers a final sigma to `ς`).
pub uninterp spec fn unicode_lower_text(s: Seq<char>) -> Seq<char>;

/// `str::to_lowercase`; the contract names its result.
#[verifier::external_body]
pub(crate) fn lower_text(s: &str) -> (r: String)
    ensures
        r@ == unicode_lower_text(s@),
{
    s.to_lowercase()
}

} // verus!
