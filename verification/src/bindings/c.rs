//! The C wrapper header over the C ABI: owned structs for the handles, a result struct per
//! return type, and an inline wrapper per function.
use vstd::prelude::*;

use super::schema::{contains_name, named};
use super::sig::{
    concat, joined, lemma_concat_step, lower_text, push_joined, unicode_lower_text, views, FnSig,
};
use super::wrappers::{amp, base, mut_word, scalar, scalar_spec, snake, snake_spec, strip_all};
use super::{same_text, suffix, suffix_spec};
use crate::text::{
    compare_text, lemma_text_lt_irreflexive, lemma_text_lt_total, lemma_text_lt_transitive,
    push_str, text_lt,
};
use vstd::string::StrSliceExecFns;

verus! {

/// The text every C wrapper header starts with.
pub const C_PRELUDE: &'static str = "/* Generated; owned structs must not be copied. */\n#ifndef TIDKOD_CLIENT_H\n#define TIDKOD_CLIENT_H\n#include \"tidkod.h\"\n#include <string.h>\n";

/// The byte-view helpers of the C wrapper header.
pub const C_BYTES: &'static str = "typedef struct { const uint8_t *data; size_t len; } TKBytes;\nstatic inline void tk_buffer_dispose(TKBuffer **value) { tidkod_buffer_free(*value); *value = NULL; }\nstatic inline TKBytes tk_buffer_view(const TKBuffer *value) { TKBytes bytes = {tidkod_buffer_data(value), tidkod_buffer_len(value)}; return bytes; }\n";

/// The owned-struct wrapper of a handle type `t`.
#[verifier::opaque]
pub open spec fn c_handle(t: Seq<char>) -> Seq<char> {
    "typedef struct { "@ + t + " *raw; } TK"@ + t + ";\nstatic inline void tk_"@ + snake_spec(t)
        + "_dispose(TK"@ + t + " *v) { tidkod_"@ + unicode_lower_text(t)
        + "_free(v->raw); v->raw = NULL; }\n"@
}

/// A Rust type's C type in the wrapper header.
pub open spec fn c_ty(opaque: Seq<String>, t: Seq<char>) -> Seq<char> {
    if named(opaque, t) {
        "TK"@ + t
    } else if t == "String"@ || t == "Vec<u8>"@ {
        "TKBuffer *"@
    } else {
        scalar_spec(t, false)
    }
}

/// The result struct for the return type `t`.
#[verifier::opaque]
pub open spec fn c_result_type(opaque: Seq<String>, t: Seq<char>) -> Seq<char> {
    "typedef struct { int32_t status; TKBuffer *error; "@ + (if t == "()"@ {
        Seq::empty()
    } else {
        c_ty(opaque, t) + " value;"@
    }) + " } TKResult"@ + suffix_spec(t) + ";\n"@
}

/// The C parameter for an argument of type `t` named `n`.
pub open spec fn c_param(opaque: Seq<String>, n: Seq<char>, t: Seq<char>) -> Seq<char> {
    (if t == "&str"@ {
        "const char *"@
    } else if t == "&[u8]"@ {
        "TKBytes"@
    } else {
        c_ty(opaque, strip_all(strip_all(t, amp()), mut_word()))
    }) + " "@ + n
}

/// The argument the wrapper passes on for an argument of type `t` named `n`.
pub open spec fn c_arg(opaque: Seq<String>, n: Seq<char>, t: Seq<char>) -> Seq<char> {
    if t == "&str"@ {
        "(const uint8_t*)"@ + n + ", "@ + n + " ? strlen("@ + n + ") : 0"@
    } else if t == "&[u8]"@ {
        n + ".data, "@ + n + ".len"@
    } else if named(opaque, strip_all(strip_all(t, amp()), mut_word())) {
        n + ".raw"@
    } else {
        n
    }
}

#[verifier::opaque]
pub open spec fn c_decl(opaque: Seq<String>, f: FnSig) -> Seq<char> {
    joined(Seq::new(f.args@.len(), |i: int| c_param(opaque, f.args@[i].0@, f.args@[i].1@)), ", "@)
}

#[verifier::opaque]
pub open spec fn c_callargs(opaque: Seq<String>, f: FnSig) -> Seq<char> {
    joined(
        Seq::new(f.args@.len(), |i: int| c_arg(opaque, f.args@[i].0@, f.args@[i].1@)) + (if f.ret@
            == "()"@ {
            Seq::empty()
        } else if named(opaque, f.ret@) {
            seq!["&result.value.raw"@]
        } else {
            seq!["&result.value"@]
        }) + seq!["&result.error"@],
        ", "@,
    )
}

/// The inline wrapper of `f`.
#[verifier::opaque]
pub open spec fn c_function(opaque: Seq<String>, f: FnSig) -> Seq<char> {
    let result = "TKResult"@ + suffix_spec(f.ret@);
    "static inline "@ + result + " tk_"@ + f.name@ + "("@ + (if c_decl(opaque, f).len() == 0 {
        "void"@
    } else {
        c_decl(opaque, f)
    }) + ") { "@ + result + " result = {0}; result.status = tidkod_"@ + f.name@ + "("@
        + c_callargs(opaque, f) + "); return result; }\n"@
}

/// The texts strictly increase.
pub open spec fn texts_sorted(s: Seq<Seq<char>>) -> bool {
    forall|i: int, j: int| 0 <= i < j < s.len() ==> text_lt(#[trigger] s[i], #[trigger] s[j])
}

/// `rets` holds exactly the return types of `fns`.
pub open spec fn return_types(rets: Seq<Seq<char>>, fns: Seq<FnSig>) -> bool {
    forall|x: Seq<char>| rets.contains(x) <==> exists|j: int| 0 <= j < fns.len() && #[trigger] fns[j].ret@ == x
}

/// The C wrapper header, with `rets` the distinct return types in order.
pub open spec fn c_header_spec(opaque: Seq<String>, fns: Seq<FnSig>, rets: Seq<Seq<char>>) -> Seq<char> {
    C_PRELUDE@ + concat(Seq::new(opaque.len(), |k: int| c_handle(opaque[k]@)))
        + C_BYTES@ + concat(Seq::new(rets.len(), |k: int| c_result_type(opaque, rets[k])))
        + concat(Seq::new(fns.len(), |j: int| c_function(opaque, fns[j]))) + "#endif\n"@
}

fn push_handle(r: &mut String, t: &str)
    ensures
        final(r)@ == old(r)@ + c_handle(t@),
{
    proof {
        reveal(c_handle);
    }
    let ghost start = r@;
    push_str(r, "typedef struct { ");
    push_str(r, t);
    push_str(r, " *raw; } TK");
    push_str(r, t);
    push_str(r, ";\nstatic inline void tk_");
    let sn = snake(t);
    push_str(r, sn.as_str());
    push_str(r, "_dispose(TK");
    push_str(r, t);
    push_str(r, " *v) { tidkod_");
    let lower = lower_text(t);
    push_str(r, lower.as_str());
    push_str(r, "_free(v->raw); v->raw = NULL; }\n");
    assert(r@ =~= start + c_handle(t@));
}

fn c_ty_of(opaque: &Vec<String>, t: &str) -> (r: String)
    ensures
        r@ == c_ty(opaque@, t@),
{
    if contains_name(opaque.as_slice(), t) {
        let mut r = "TK".to_owned();
        push_str(&mut r, t);
        r
    } else if same_text(t, "String") || same_text(t, "Vec<u8>") {
        "TKBuffer *".to_owned()
    } else {
        scalar(t, false)
    }
}

fn push_result_type(r: &mut String, opaque: &Vec<String>, t: &str)
    ensures
        final(r)@ == old(r)@ + c_result_type(opaque@, t@),
{
    proof {
        reveal(c_result_type);
    }
    let ghost start = r@;
    push_str(r, "typedef struct { int32_t status; TKBuffer *error; ");
    if !same_text(t, "()") {
        let ty = c_ty_of(opaque, t);
        push_str(r, ty.as_str());
        push_str(r, " value;");
    }
    push_str(r, " } TKResult");
    let sf = suffix(t);
    push_str(r, sf.as_str());
    push_str(r, ";\n");
    assert(r@ =~= start + c_result_type(opaque@, t@));
}

fn c_param_of(opaque: &Vec<String>, n: &str, t: &str) -> (r: String)
    ensures
        r@ == c_param(opaque@, n@, t@),
{
    let mut r = if same_text(t, "&str") {
        "const char *".to_owned()
    } else if same_text(t, "&[u8]") {
        "TKBytes".to_owned()
    } else {
        c_ty_of(opaque, base(t))
    };
    push_str(&mut r, " ");
    push_str(&mut r, n);
    r
}

fn c_arg_of(opaque: &Vec<String>, n: &str, t: &str) -> (r: String)
    ensures
        r@ == c_arg(opaque@, n@, t@),
{
    let mut r = String::new();
    if same_text(t, "&str") {
        push_str(&mut r, "(const uint8_t*)");
        push_str(&mut r, n);
        push_str(&mut r, ", ");
        push_str(&mut r, n);
        push_str(&mut r, " ? strlen(");
        push_str(&mut r, n);
        push_str(&mut r, ") : 0");
    } else if same_text(t, "&[u8]") {
        push_str(&mut r, n);
        push_str(&mut r, ".data, ");
        push_str(&mut r, n);
        push_str(&mut r, ".len");
    } else if contains_name(opaque.as_slice(), base(t)) {
        push_str(&mut r, n);
        push_str(&mut r, ".raw");
    } else {
        push_str(&mut r, n);
    }
    assert(r@ =~= c_arg(opaque@, n@, t@));
    r
}

fn c_decl_of(opaque: &Vec<String>, f: &FnSig) -> (r: String)
    ensures
        r@ == c_decl(opaque@, *f),
{
    proof {
        reveal(c_decl);
    }
    let mut parts: Vec<String> = Vec::new();
    let mut i: usize = 0;
    while i < f.args.len()
        invariant
            i <= f.args@.len(),
            parts@.len() == i,
            forall|j: int|
                0 <= j < i ==> (#[trigger] parts@[j])@ == c_param(opaque@, f.args@[j].0@, f.args@[j].1@),
        decreases f.args@.len() - i,
    {
        parts.push(c_param_of(opaque, f.args[i].0.as_str(), f.args[i].1.as_str()));
        i = i + 1;
    }
    assert(views(parts@) =~= Seq::new(
        f.args@.len(),
        |i: int| c_param(opaque@, f.args@[i].0@, f.args@[i].1@),
    ));
    let mut r = String::new();
    push_joined(&mut r, &parts, ", ");
    r
}

fn push_c_callargs(r: &mut String, opaque: &Vec<String>, f: &FnSig)
    ensures
        final(r)@ == old(r)@ + c_callargs(opaque@, *f),
{
    proof {
        reveal(c_callargs);
    }
    let mut parts: Vec<String> = Vec::new();
    let mut i: usize = 0;
    while i < f.args.len()
        invariant
            i <= f.args@.len(),
            parts@.len() == i,
            forall|j: int|
                0 <= j < i ==> (#[trigger] parts@[j])@ == c_arg(opaque@, f.args@[j].0@, f.args@[j].1@),
        decreases f.args@.len() - i,
    {
        parts.push(c_arg_of(opaque, f.args[i].0.as_str(), f.args[i].1.as_str()));
        i = i + 1;
    }
    let ret = f.ret.as_str();
    if !same_text(ret, "()") {
        if contains_name(opaque.as_slice(), ret) {
            parts.push("&result.value.raw".to_owned());
        } else {
            parts.push("&result.value".to_owned());
        }
    }
    parts.push("&result.error".to_owned());
    assert(views(parts@) =~= Seq::new(
        f.args@.len(),
        |i: int| c_arg(opaque@, f.args@[i].0@, f.args@[i].1@),
    ) + (if f.ret@ == "()"@ {
        Seq::empty()
    } else if named(opaque@, f.ret@) {
        seq!["&result.value.raw"@]
    } else {
        seq!["&result.value"@]
    }) + seq!["&result.error"@]);
    push_joined(r, &parts, ", ");
}

fn push_c_function(r: &mut String, opaque: &Vec<String>, f: &FnSig)
    ensures
        final(r)@ == old(r)@ + c_function(opaque@, *f),
{
    proof {
        reveal(c_function);
    }
    let ghost start = r@;
    let mut result = "TKResult".to_owned();
    let sf = suffix(f.ret.as_str());
    push_str(&mut result, sf.as_str());
    let decl = c_decl_of(opaque, f);
    push_str(r, "static inline ");
    push_str(r, result.as_str());
    push_str(r, " tk_");
    push_str(r, f.name.as_str());
    push_str(r, "(");
    if decl.unicode_len() == 0 {
        push_str(r, "void");
    } else {
        push_str(r, decl.as_str());
    }
    push_str(r, ") { ");
    push_str(r, result.as_str());
    push_str(r, " result = {0}; result.status = tidkod_");
    push_str(r, f.name.as_str());
    push_str(r, "(");
    push_c_callargs(r, opaque, f);
    push_str(r, "); return result; }\n");
    assert(r@ =~= start + c_function(opaque@, *f));
}

/// The distinct return types of `fns`, in text order.
fn sorted_returns(fns: &Vec<FnSig>) -> (rets: Vec<String>)
    ensures
        texts_sorted(views(rets@)),
        return_types(views(rets@), fns@),
{
    let mut rets: Vec<String> = Vec::new();
    let mut j: usize = 0;
    while j < fns.len()
        invariant
            j <= fns@.len(),
            texts_sorted(views(rets@)),
            forall|x: Seq<char>|
                views(rets@).contains(x) <==> exists|i: int| 0 <= i < j && #[trigger] fns@[i].ret@ == x,
        decreases fns@.len() - j,
    {
        let t = fns[j].ret.as_str();
        let ghost v0 = views(rets@);
        let ghost key = t@;
        let n = rets.len();
        let mut i: usize = 0;
        while i < n
            invariant
                n == v0.len(),
                i <= n,
                v0 == views(rets@),
                key == t@,
                forall|k: int| 0 <= k < i ==> text_lt(#[trigger] v0[k], key),
            ensures
                i <= n,
                forall|k: int| 0 <= k < i ==> text_lt(#[trigger] v0[k], key),
                i == n || !text_lt(v0[i as int], key),
            decreases n - i,
        {
            if compare_text(rets[i].as_str(), t) != -1 {
                break;
            }
            i = i + 1;
        }
        proof {
            assert forall|k: int| 0 <= k < n implies #[trigger] v0[k] != key || k == i by {
                if k < i {
                    lemma_text_lt_irreflexive(key);
                } else if k > i && v0[k] == key {
                    lemma_text_lt_total(v0[i as int], key);
                    if v0[i as int] != key {
                        lemma_text_lt_transitive(key, v0[i as int], v0[k]);
                    }
                    assert(text_lt(v0[i as int], v0[k]));
                    lemma_text_lt_irreflexive(key);
                    if v0[i as int] != key {
                        lemma_text_lt_total(v0[i as int], key);
                    }
                }
            }
        }
        if i < n && compare_text(rets[i].as_str(), t) == 0 {
            proof {
                assert(v0.contains(key));
            }
        } else {
            rets.insert(i, t.to_owned());
            proof {
                let v1 = views(rets@);
                assert(v1 =~= v0.insert(i as int, key));
                assert forall|k: int| i <= k < n implies text_lt(key, #[trigger] v0[k]) by {
                    lemma_text_lt_total(v0[i as int], key);
                    if k > i {
                        assert(text_lt(v0[i as int], v0[k]));
                        lemma_text_lt_transitive(key, v0[i as int], v0[k]);
                    }
                }
                assert forall|a: int, b: int| 0 <= a < b < v1.len() implies text_lt(
                    #[trigger] v1[a],
                    #[trigger] v1[b],
                ) by {
                    if a < i && b > i {
                        lemma_text_lt_transitive(v0[a], key, v0[b - 1]);
                    } else if a == i {
                        assert(v1[b] == v0[b - 1]);
                    } else if b < i {
                        assert(text_lt(v0[a], v0[b]));
                    } else if a > i {
                        assert(text_lt(v0[a - 1], v0[b - 1]));
                    }
                }
            }
        }
        proof {
            let v1 = views(rets@);
            assert forall|x: Seq<char>| v1.contains(x) <==> exists|i2: int|
                0 <= i2 < j + 1 && #[trigger] fns@[i2].ret@ == x by {
                if v1.contains(x) {
                    let k = choose|k: int| 0 <= k < v1.len() && v1[k] == x;
                    if x != key {
                        assert(v0.contains(x)) by {
                            if v1 =~= v0 {
                            } else {
                                let k0 = if k < i { k } else { k - 1 };
                                assert(v0[k0] == x);
                            }
                        }
                        let i2 = choose|i2: int| 0 <= i2 < j && #[trigger] fns@[i2].ret@ == x;
                        assert(fns@[i2].ret@ == x);
                    } else {
                        assert(fns@[j as int].ret@ == x);
                    }
                }
                if exists|i2: int| 0 <= i2 < j + 1 && #[trigger] fns@[i2].ret@ == x {
                    let i2 = choose|i2: int| 0 <= i2 < j + 1 && #[trigger] fns@[i2].ret@ == x;
                    if i2 == j {
                        if v1 =~= v0 {
                            assert(v0.contains(key));
                        } else {
                            assert(v1[i as int] == key);
                        }
                    } else {
                        assert(v0.contains(x));
                        let k = choose|k: int| 0 <= k < v0.len() && v0[k] == x;
                        if v1 =~= v0 {
                            assert(v1[k] == x);
                        } else if k < i {
                            assert(v1[k] == x);
                        } else {
                            assert(v1[k + 1] == x);
                        }
                    }
                }
            }
        }
        j = j + 1;
    }
    rets
}

/// The C wrapper header (`tidkod-client.h`) for the handles `opaque` and API `functions`:
/// an owned struct per handle, a result struct per distinct return type (in text order),
/// and an inline wrapper per function.
pub fn c_wrappers_header(opaque: &Vec<String>, functions: &Vec<FnSig>) -> (r: String)
    ensures
        exists|rets: Seq<Seq<char>>|
            texts_sorted(rets) && return_types(rets, functions@) && r@ == c_header_spec(
                opaque@,
                functions@,
                rets,
            ),
{
    let ghost o = opaque@;
    let mut s = C_PRELUDE.to_owned();
    let ghost s0 = s@;
    let ghost p1 = Seq::new(o.len(), |k: int| c_handle(o[k]@));
    let mut k: usize = 0;
    assert(p1.take(0) =~= Seq::<Seq<char>>::empty());
    while k < opaque.len()
        invariant
            k <= o.len(),
            o == opaque@,
            p1 == Seq::new(o.len(), |k: int| c_handle(o[k]@)),
            s@ == s0 + concat(p1.take(k as int)),
        decreases o.len() - k,
    {
        proof {
            lemma_concat_step(p1, k as int);
        }
        push_handle(&mut s, opaque[k].as_str());
        k = k + 1;
    }
    assert(p1.take(k as int) =~= p1);
    push_str(&mut s, C_BYTES);
    let rets = sorted_returns(functions);
    let ghost rv = views(rets@);
    let ghost s1 = s@;
    let ghost p2 = Seq::new(rv.len(), |k: int| c_result_type(o, rv[k]));
    let mut k: usize = 0;
    assert(p2.take(0) =~= Seq::<Seq<char>>::empty());
    while k < rets.len()
        invariant
            k <= rv.len(),
            o == opaque@,
            rv == views(rets@),
            p2 == Seq::new(rv.len(), |k: int| c_result_type(o, rv[k])),
            s@ == s1 + concat(p2.take(k as int)),
        decreases rv.len() - k,
    {
        proof {
            lemma_concat_step(p2, k as int);
        }
        push_result_type(&mut s, opaque, rets[k].as_str());
        k = k + 1;
    }
    assert(p2.take(k as int) =~= p2);
    let ghost s2 = s@;
    let ghost fs = functions@;
    let ghost p3 = Seq::new(fs.len(), |j: int| c_function(o, fs[j]));
    let mut j: usize = 0;
    assert(p3.take(0) =~= Seq::<Seq<char>>::empty());
    while j < functions.len()
        invariant
            j <= fs.len(),
            o == opaque@,
            fs == functions@,
            p3 == Seq::new(fs.len(), |j: int| c_function(o, fs[j])),
            s@ == s2 + concat(p3.take(j as int)),
        decreases fs.len() - j,
    {
        proof {
            lemma_concat_step(p3, j as int);
        }
        push_c_function(&mut s, opaque, &functions[j]);
        j = j + 1;
    }
    assert(p3.take(j as int) =~= p3);
    push_str(&mut s, "#endif\n");
    assert(s@ =~= c_header_spec(o, fs, rv));
    s
}

} // verus!
