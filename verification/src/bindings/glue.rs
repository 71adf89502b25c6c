//! The Rust glue generated from the API: the module that declares the API to the Swift
//! bridge, with its record conversions and forwarding functions, and the C ABI shims.
use vstd::prelude::*;

use super::api::{replace_all, replace_text};
use super::csharp::{has_record, record_named};
use super::same_text;
use super::schema::{contains_name, named, starts_with};
use super::sig::{lower_text, unicode_lower_text};
use super::wrappers::{amp, base, mut_word, strip_all};
use super::sig::{concat, joined, lemma_concat_step, push_joined, views, FnSig, Record};
use crate::text::push_str;

verus! {

/// The fields of a record as Rust struct fields: `pub name: type,` each.
pub open spec fn struct_fields(fields: Seq<(String, String)>) -> Seq<char> {
    concat(Seq::new(fields.len(), |j: int| "pub "@ + fields[j].0@ + ": "@ + fields[j].1@ + ","@))
}

/// The fields of a record copied from a value: `name:value.name,` each.
pub open spec fn copied_fields(fields: Seq<(String, String)>) -> Seq<char> {
    concat(Seq::new(fields.len(), |j: int| fields[j].0@ + ":value."@ + fields[j].0@ + ","@))
}

fn push_struct_fields(s: &mut String, fields: &Vec<(String, String)>)
    ensures
        final(s)@ == old(s)@ + struct_fields(fields@),
{
    let ghost p = Seq::new(fields@.len(), |j: int| "pub "@ + fields@[j].0@ + ": "@ + fields@[j].1@ + ","@);
    let ghost start = s@;
    let mut k: usize = 0;
    assert(p.take(0) =~= Seq::<Seq<char>>::empty());
    while k < fields.len()
        invariant
            k <= fields@.len(),
            p == Seq::new(fields@.len(), |j: int| "pub "@ + fields@[j].0@ + ": "@ + fields@[j].1@ + ","@),
            s@ == start + concat(p.take(k as int)),
        decreases fields@.len() - k,
    {
        proof {
            lemma_concat_step(p, k as int);
        }
        let ghost before = s@;
        push_str(s, "pub ");
        push_str(s, fields[k].0.as_str());
        push_str(s, ": ");
        push_str(s, fields[k].1.as_str());
        push_str(s, ",");
        assert(s@ =~= before + p[k as int]);
        k = k + 1;
    }
    assert(p.take(k as int) =~= p);
}

fn push_copied_fields(s: &mut String, fields: &Vec<(String, String)>)
    ensures
        final(s)@ == old(s)@ + copied_fields(fields@),
{
    let ghost p = Seq::new(fields@.len(), |j: int| fields@[j].0@ + ":value."@ + fields@[j].0@ + ","@);
    let ghost start = s@;
    let mut k: usize = 0;
    assert(p.take(0) =~= Seq::<Seq<char>>::empty());
    while k < fields.len()
        invariant
            k <= fields@.len(),
            p == Seq::new(fields@.len(), |j: int| fields@[j].0@ + ":value."@ + fields@[j].0@ + ","@),
            s@ == start + concat(p.take(k as int)),
        decreases fields@.len() - k,
    {
        proof {
            lemma_concat_step(p, k as int);
        }
        let ghost before = s@;
        push_str(s, fields[k].0.as_str());
        push_str(s, ":value.");
        push_str(s, fields[k].0.as_str());
        push_str(s, ",");
        assert(s@ =~= before + p[k as int]);
        k = k + 1;
    }
    assert(p.take(k as int) =~= p);
}

/// A record declared to the Swift bridge as a Swift struct.
pub open spec fn bridge_record(r: Record) -> Seq<char> {
    "#[swift_bridge(swift_repr = \"struct\")] struct "@ + r.0@ + "{"@ + struct_fields(r.1@) + "}\n"@
}

/// The conversion of an API record into the bridge's record.
pub open spec fn bridge_convert(r: Record) -> Seq<char> {
    "impl From<crate::api::"@ + r.0@ + "> for ffi::"@ + r.0@ + " {fn from(value:crate::api::"@
        + r.0@ + ")->Self{Self{"@ + copied_fields(r.1@) + "}}}"@
}

/// An argument as the bridge declares it: a string slice is taken as an owned `String`,
/// and `&mut` gets its space back.
pub open spec fn bridge_arg(p: (String, String)) -> Seq<char> {
    p.0@ + ":"@ + (if p.1@ == "&str"@ {
        "String"@
    } else {
        replace_all(p.1@, "&mut"@, "&mut "@)
    })
}

/// An argument as the forwarding call passes it: an owned string is lent as a slice.
pub open spec fn forwarded_arg(p: (String, String)) -> Seq<char> {
    if p.1@ == "&str"@ {
        "&"@ + p.0@
    } else {
        p.0@
    }
}

pub open spec fn bridge_decl(f: FnSig) -> Seq<char> {
    joined(Seq::new(f.args@.len(), |i: int| bridge_arg(f.args@[i])), ","@)
}

/// The call of the API function with the function's arguments.
pub open spec fn forward_call(f: FnSig) -> Seq<char> {
    "crate::api::"@ + f.name@ + "("@ + joined(
        Seq::new(f.args@.len(), |i: int| forwarded_arg(f.args@[i])),
        ","@,
    ) + ")"@
}

/// The return type as the bridge declares it: a failure carries its message.
pub open spec fn bridge_ret(f: FnSig) -> Seq<char> {
    if f.fallible {
        "Result<"@ + f.ret@ + ",String>"@
    } else {
        f.ret@
    }
}

/// A function declared to the bridge.
pub open spec fn bridge_fn(f: FnSig) -> Seq<char> {
    "fn "@ + f.name@ + "("@ + bridge_decl(f) + ")->"@ + bridge_ret(f) + ";\n"@
}

/// The function that forwards a bridge call to the API, converting a record it returns.
pub open spec fn forward_fn(records: Seq<Record>, f: FnSig) -> Seq<char> {
    let rec = record_named(records, f.ret@);
    let ret = if rec {
        if f.fallible {
            "Result<ffi::"@ + f.ret@ + ",String>"@
        } else {
            "ffi::"@ + f.ret@
        }
    } else {
        bridge_ret(f)
    };
    let expr = if rec {
        if f.fallible {
            forward_call(f) + ".map(Into::into)"@
        } else {
            forward_call(f) + ".into()"@
        }
    } else {
        forward_call(f)
    };
    "fn "@ + f.name@ + "("@ + bridge_decl(f) + ")->"@ + ret + "{"@ + expr + "}\n"@
}

/// The Swift bridge module for the API: its records, handle types and functions declared
/// to the bridge, then the record conversions, the handle imports and the forwarding
/// functions, with every `->()` dropped.
pub open spec fn swift_bridge_spec(opaque: Seq<String>, records: Seq<Record>, fns: Seq<FnSig>) -> Seq<char> {
    replace_all(
        "#[swift_bridge::bridge] mod ffi {\n"@ + concat(
            Seq::new(records.len(), |k: int| bridge_record(records[k])),
        ) + "extern \"Rust\" {\n"@ + concat(Seq::new(opaque.len(), |k: int| "type "@ + opaque[k]@ + ";\n"@))
            + concat(Seq::new(fns.len(), |k: int| bridge_fn(fns[k]))) + "}}\n"@ + concat(
            Seq::new(records.len(), |k: int| bridge_convert(records[k])),
        ) + concat(Seq::new(opaque.len(), |k: int| "use crate::api::"@ + opaque[k]@ + ";\n"@))
            + concat(Seq::new(fns.len(), |k: int| forward_fn(records, fns[k]))),
        "->()"@,
        ""@,
    )
}

fn push_bridge_record(s: &mut String, r: &Record)
    ensures
        final(s)@ == old(s)@ + bridge_record(*r),
{
    let ghost start = s@;
    push_str(s, "#[swift_bridge(swift_repr = \"struct\")] struct ");
    push_str(s, r.0.as_str());
    push_str(s, "{");
    push_struct_fields(s, &r.1);
    push_str(s, "}\n");
    assert(s@ =~= start + bridge_record(*r));
}

fn push_bridge_convert(s: &mut String, r: &Record)
    ensures
        final(s)@ == old(s)@ + bridge_convert(*r),
{
    let ghost start = s@;
    let n = r.0.as_str();
    push_str(s, "impl From<crate::api::");
    push_str(s, n);
    push_str(s, "> for ffi::");
    push_str(s, n);
    push_str(s, " {fn from(value:crate::api::");
    push_str(s, n);
    push_str(s, ")->Self{Self{");
    push_copied_fields(s, &r.1);
    push_str(s, "}}}");
    assert(s@ =~= start + bridge_convert(*r));
}

fn push_bridge_decl(s: &mut String, f: &FnSig)
    ensures
        final(s)@ == old(s)@ + bridge_decl(*f),
{
    let mut parts: Vec<String> = Vec::new();
    let mut i: usize = 0;
    while i < f.args.len()
        invariant
            i <= f.args@.len(),
            parts@.len() == i,
            forall|j: int| 0 <= j < i ==> (#[trigger] parts@[j])@ == bridge_arg(f.args@[j]),
        decreases f.args@.len() - i,
    {
        let (n, t) = (f.args[i].0.as_str(), f.args[i].1.as_str());
        let mut p = n.to_owned();
        push_str(&mut p, ":");
        if same_text(t, "&str") {
            push_str(&mut p, "String");
        } else {
            proof {
                reveal_strlit("&mut");
            }
            let u = replace_text(t, "&mut", "&mut ");
            push_str(&mut p, u.as_str());
        }
        parts.push(p);
        i = i + 1;
    }
    assert(views(parts@) =~= Seq::new(f.args@.len(), |i: int| bridge_arg(f.args@[i])));
    push_joined(s, &parts, ",");
}

fn push_forward_call(s: &mut String, f: &FnSig)
    ensures
        final(s)@ == old(s)@ + forward_call(*f),
{
    let ghost start = s@;
    let mut parts: Vec<String> = Vec::new();
    let mut i: usize = 0;
    while i < f.args.len()
        invariant
            i <= f.args@.len(),
            parts@.len() == i,
            forall|j: int| 0 <= j < i ==> (#[trigger] parts@[j])@ == forwarded_arg(f.args@[j]),
        decreases f.args@.len() - i,
    {
        let (n, t) = (f.args[i].0.as_str(), f.args[i].1.as_str());
        let mut p = String::new();
        if same_text(t, "&str") {
            push_str(&mut p, "&");
        }
        push_str(&mut p, n);
        parts.push(p);
        i = i + 1;
    }
    assert(views(parts@) =~= Seq::new(f.args@.len(), |i: int| forwarded_arg(f.args@[i])));
    push_str(s, "crate::api::");
    push_str(s, f.name.as_str());
    push_str(s, "(");
    push_joined(s, &parts, ",");
    push_str(s, ")");
    assert(s@ =~= start + forward_call(*f));
}

fn push_bridge_ret(s: &mut String, f: &FnSig)
    ensures
        final(s)@ == old(s)@ + bridge_ret(*f),
{
    let ghost start = s@;
    if f.fallible {
        push_str(s, "Result<");
        push_str(s, f.ret.as_str());
        push_str(s, ",String>");
    } else {
        push_str(s, f.ret.as_str());
    }
    assert(s@ =~= start + bridge_ret(*f));
}

fn push_bridge_fn(s: &mut String, f: &FnSig)
    ensures
        final(s)@ == old(s)@ + bridge_fn(*f),
{
    let ghost start = s@;
    push_str(s, "fn ");
    push_str(s, f.name.as_str());
    push_str(s, "(");
    push_bridge_decl(s, f);
    push_str(s, ")->");
    push_bridge_ret(s, f);
    push_str(s, ";\n");
    assert(s@ =~= start + bridge_fn(*f));
}

fn push_forward_fn(s: &mut String, records: &Vec<Record>, f: &FnSig)
    ensures
        final(s)@ == old(s)@ + forward_fn(records@, *f),
{
    let ghost start = s@;
    let rec = has_record(records, f.ret.as_str());
    push_str(s, "fn ");
    push_str(s, f.name.as_str());
    push_str(s, "(");
    push_bridge_decl(s, f);
    push_str(s, ")->");
    let ghost mid = s@;
    if rec {
        if f.fallible {
            push_str(s, "Result<ffi::");
            push_str(s, f.ret.as_str());
            push_str(s, ",String>");
        } else {
            push_str(s, "ffi::");
            push_str(s, f.ret.as_str());
        }
    } else {
        push_bridge_ret(s, f);
    }
    push_str(s, "{");
    push_forward_call(s, f);
    if rec {
        if f.fallible {
            push_str(s, ".map(Into::into)");
        } else {
            push_str(s, ".into()");
        }
    }
    push_str(s, "}\n");
    assert(s@ =~= start + forward_fn(records@, *f));
}

/// The Swift bridge module for the API (`swift.rs`), as `swift_bridge_spec` spells it.
pub fn swift_bridge_source(opaque: &Vec<String>, records: &Vec<Record>, functions: &Vec<FnSig>) -> (r: String)
    ensures
        r@ == swift_bridge_spec(opaque@, records@, functions@),
{
    let ghost o = opaque@;
    let ghost rs = records@;
    let ghost fs = functions@;
    let mut s = "#[swift_bridge::bridge] mod ffi {\n".to_owned();
    let ghost s0 = s@;
    let ghost p1 = Seq::new(rs.len(), |k: int| bridge_record(rs[k]));
    let mut k: usize = 0;
    assert(p1.take(0) =~= Seq::<Seq<char>>::empty());
    while k < records.len()
        invariant
            k <= rs.len(),
            rs == records@,
            p1 == Seq::new(rs.len(), |k: int| bridge_record(rs[k])),
            s@ == s0 + concat(p1.take(k as int)),
        decreases rs.len() - k,
    {
        proof {
            lemma_concat_step(p1, k as int);
        }
        push_bridge_record(&mut s, &records[k]);
        k = k + 1;
    }
    assert(p1.take(k as int) =~= p1);
    push_str(&mut s, "extern \"Rust\" {\n");
    let ghost s1 = s@;
    let ghost p2 = Seq::new(o.len(), |k: int| "type "@ + o[k]@ + ";\n"@);
    let mut k: usize = 0;
    assert(p2.take(0) =~= Seq::<Seq<char>>::empty());
    while k < opaque.len()
        invariant
            k <= o.len(),
            o == opaque@,
            p2 == Seq::new(o.len(), |k: int| "type "@ + o[k]@ + ";\n"@),
            s@ == s1 + concat(p2.take(k as int)),
        decreases o.len() - k,
    {
        proof {
            lemma_concat_step(p2, k as int);
        }
        let ghost before = s@;
        push_str(&mut s, "type ");
        push_str(&mut s, opaque[k].as_str());
        push_str(&mut s, ";\n");
        assert(s@ =~= before + p2[k as int]);
        k = k + 1;
    }
    assert(p2.take(k as int) =~= p2);
    let ghost s2 = s@;
    let ghost p3 = Seq::new(fs.len(), |k: int| bridge_fn(fs[k]));
    let mut k: usize = 0;
    assert(p3.take(0) =~= Seq::<Seq<char>>::empty());
    while k < functions.len()
        invariant
            k <= fs.len(),
            fs == functions@,
            p3 == Seq::new(fs.len(), |k: int| bridge_fn(fs[k])),
            s@ == s2 + concat(p3.take(k as int)),
        decreases fs.len() - k,
    {
        proof {
            lemma_concat_step(p3, k as int);
        }
        push_bridge_fn(&mut s, &functions[k]);
        k = k + 1;
    }
    assert(p3.take(k as int) =~= p3);
    push_str(&mut s, "}}\n");
    let ghost s3 = s@;
    let ghost p4 = Seq::new(rs.len(), |k: int| bridge_convert(rs[k]));
    let mut k: usize = 0;
    assert(p4.take(0) =~= Seq::<Seq<char>>::empty());
    while k < records.len()
        invariant
            k <= rs.len(),
            rs == records@,
            p4 == Seq::new(rs.len(), |k: int| bridge_convert(rs[k])),
            s@ == s3 + concat(p4.take(k as int)),
        decreases rs.len() - k,
    {
        proof {
            lemma_concat_step(p4, k as int);
        }
        push_bridge_convert(&mut s, &records[k]);
        k = k + 1;
    }
    assert(p4.take(k as int) =~= p4);
    let ghost s4 = s@;
    let ghost p5 = Seq::new(o.len(), |k: int| "use crate::api::"@ + o[k]@ + ";\n"@);
    let mut k: usize = 0;
    assert(p5.take(0) =~= Seq::<Seq<char>>::empty());
    while k < opaque.len()
        invariant
            k <= o.len(),
            o == opaque@,
            p5 == Seq::new(o.len(), |k: int| "use crate::api::"@ + o[k]@ + ";\n"@),
            s@ == s4 + concat(p5.take(k as int)),
        decreases o.len() - k,
    {
        proof {
            lemma_concat_step(p5, k as int);
        }
        let ghost before = s@;
        push_str(&mut s, "use crate::api::");
        push_str(&mut s, opaque[k].as_str());
        push_str(&mut s, ";\n");
        assert(s@ =~= before + p5[k as int]);
        k = k + 1;
    }
    assert(p5.take(k as int) =~= p5);
    let ghost s5 = s@;
    let ghost p6 = Seq::new(fs.len(), |k: int| forward_fn(rs, fs[k]));
    let mut k: usize = 0;
    assert(p6.take(0) =~= Seq::<Seq<char>>::empty());
    while k < functions.len()
        invariant
            k <= fs.len(),
            fs == functions@,
            rs == records@,
            p6 == Seq::new(fs.len(), |k: int| forward_fn(rs, fs[k])),
            s@ == s5 + concat(p6.take(k as int)),
        decreases fs.len() - k,
    {
        proof {
            lemma_concat_step(p6, k as int);
        }
        push_forward_fn(&mut s, records, &functions[k]);
        k = k + 1;
    }
    assert(p6.take(k as int) =~= p6);
    assert(s@ =~= "#[swift_bridge::bridge] mod ffi {\n"@ + concat(p1) + "extern \"Rust\" {\n"@ + concat(p2)
        + concat(p3) + "}}\n"@ + concat(p4) + concat(p5) + concat(p6));
    proof {
        reveal_strlit("->()");
    }
    replace_text(s.as_str(), "->()", "")
}

/// A string or byte slice, which crosses the C ABI as a pointer and a length.
pub open spec fn is_span(t: Seq<char>) -> bool {
    t == "&str"@ || t == "&[u8]"@
}

pub open spec fn mut_ref(t: Seq<char>) -> bool {
    "&mut"@.is_prefix_of(t)
}

pub open spec fn ptr_kind(t: Seq<char>) -> Seq<char> {
    if mut_ref(t) {
        "mut"@
    } else {
        "const"@
    }
}

/// The type a reference names.
pub open spec fn ref_type(t: Seq<char>) -> Seq<char> {
    strip_all(strip_all(t, amp()), mut_word())
}

/// A C ABI parameter for an argument: a pointer and a length for a slice, a raw pointer
/// for a reference, the type itself otherwise.
pub open spec fn c_arg_decl(p: (String, String)) -> Seq<char> {
    let (n, t) = (p.0@, p.1@);
    if is_span(t) {
        n + ":*const u8,"@ + n + "_len:usize"@
    } else if amp().is_prefix_of(t) {
        n + ":*"@ + ptr_kind(t) + " "@ + ref_type(t)
    } else {
        n + ":"@ + replace_all(t, "&mut"@, "&mut "@)
    }
}

/// The statements that turn a C ABI parameter back into the argument: a checked slice
/// (and UTF-8 text for a string), or a reference that must not be null.
pub open spec fn c_arg_init(p: (String, String)) -> Seq<char> {
    let (n, t) = (p.0@, p.1@);
    if is_span(t) {
        "let "@ + n + "=unsafe{input("@ + n + ","@ + n + "_len)}?;"@ + (if t == "&str"@ {
            "let "@ + n + "=std::str::from_utf8("@ + n + ").map_err(|e|e.to_string())?;"@
        } else {
            Seq::empty()
        })
    } else if amp().is_prefix_of(t) {
        "let "@ + n + "=unsafe{("@ + n + " as *"@ + ptr_kind(t) + " crate::api::"@ + ref_type(t)
            + ").as_"@ + (if mut_ref(t) {
            "mut"@
        } else {
            "ref"@
        }) + "()}.ok_or(\"null "@ + n + "\")?;"@
    } else {
        Seq::empty()
    }
}

/// The C type of the value a function writes out.
pub open spec fn c_out_type(opaque: Seq<String>, t: Seq<char>) -> Seq<char> {
    if named(opaque, t) {
        "*mut "@ + t
    } else if t == "String"@ || t == "Vec<u8>"@ {
        "*mut TKBuffer"@
    } else {
        t
    }
}

pub open spec fn c_decls(opaque: Seq<String>, f: FnSig) -> Seq<Seq<char>> {
    Seq::new(f.args@.len(), |i: int| c_arg_decl(f.args@[i])) + (if f.ret@ != "()"@ {
        seq!["out:*mut "@ + c_out_type(opaque, f.ret@)]
    } else {
        Seq::empty()
    }) + seq!["error:*mut *mut TKBuffer"@]
}

pub open spec fn c_init(f: FnSig) -> Seq<char> {
    concat(Seq::new(f.args@.len(), |i: int| c_arg_init(f.args@[i]))) + (if f.ret@ != "()"@ {
        "if out.is_null(){return Err(\"null output\".into());}"@
    } else {
        Seq::empty()
    })
}

pub open spec fn c_call(f: FnSig) -> Seq<char> {
    "crate::api::"@ + f.name@ + "("@ + joined(Seq::new(f.args@.len(), |i: int| f.args@[i].0@), ","@)
        + ")"@ + (if f.fallible {
        "?"@
    } else {
        Seq::empty()
    })
}

/// The position of the first record named `t`, from `i` on; -1 when there is none.
pub open spec fn record_index(records: Seq<Record>, t: Seq<char>, i: nat) -> int
    decreases records.len() - i,
{
    if i >= records.len() {
        -1
    } else if records[i as int].0@ == t {
        i as int
    } else {
        record_index(records, t, i + 1)
    }
}

/// The value a shim writes out: a boxed handle, a buffer for text and bytes, the C record
/// copied field by field, or the value itself.
pub open spec fn c_value(opaque: Seq<String>, records: Seq<Record>, f: FnSig) -> Seq<char> {
    let call = c_call(f);
    let t = f.ret@;
    if named(opaque, t) {
        "Box::into_raw(Box::new("@ + call + ")).cast::<"@ + t + ">()"@
    } else if t == "String"@ {
        "buffer("@ + call + ".into_bytes())"@
    } else if t == "Vec<u8>"@ {
        "buffer("@ + call + ")"@
    } else if record_named(records, t) {
        "{let value="@ + call + ";"@ + t + "{"@ + copied_fields(records[record_index(records, t, 0)].1@)
            + "}}"@
    } else {
        call
    }
}

pub open spec fn c_statement(opaque: Seq<String>, records: Seq<Record>, f: FnSig) -> Seq<char> {
    if f.ret@ == "()"@ {
        c_value(opaque, records, f) + ";"@
    } else {
        "let value="@ + c_value(opaque, records, f) + ";unsafe{out.write(value);}"@
    }
}

/// The exported C function that checks its parameters, calls the API function and reports
/// its outcome through `invoke`.
pub open spec fn c_fn(opaque: Seq<String>, records: Seq<Record>, f: FnSig) -> Seq<char> {
    "#[unsafe(no_mangle)] pub unsafe extern \"C\" fn tidkod_"@ + f.name@ + "("@ + joined(
        c_decls(opaque, f),
        ","@,
    ) + ")->i32{let call=||{"@ + c_init(f) + c_statement(opaque, records, f)
        + "Ok(())};unsafe{invoke(error,call)}}\n"@
}

pub open spec fn c_record(r: Record) -> Seq<char> {
    "#[repr(C)] #[derive(Default)] pub struct "@ + r.0@ + "{"@ + struct_fields(r.1@) + "}\n"@
}

/// A handle type, opaque to C, and the exported function that frees one.
pub open spec fn c_handle(t: Seq<char>) -> Seq<char> {
    "pub struct "@ + t + "{_private:()}\n"@
        + "#[unsafe(no_mangle)] pub unsafe extern \"C\" fn tidkod_"@ + unicode_lower_text(t)
        + "_free(value:*mut "@ + t
        + "){if !value.is_null(){unsafe{drop(Box::from_raw(value.cast::<crate::api::"@ + t
        + ">()))}}}\n"@
}

/// The C ABI shims for the API (`c.rs`): the C records, the handle types with their free
/// functions, and a shim per function.
pub open spec fn c_abi_spec(opaque: Seq<String>, records: Seq<Record>, fns: Seq<FnSig>) -> Seq<char> {
    "use crate::c_support::*;\n"@ + concat(Seq::new(records.len(), |k: int| c_record(records[k])))
        + concat(Seq::new(opaque.len(), |k: int| c_handle(opaque[k]@))) + concat(
        Seq::new(fns.len(), |k: int| c_fn(opaque, records, fns[k])),
    )
}

fn record_index_of(records: &Vec<Record>, t: &str) -> (r: Option<usize>)
    ensures
        match r {
            Some(i) => record_index(records@, t@, 0) == i as int && i < records@.len(),
            None => record_index(records@, t@, 0) == -1,
        },
{
    let mut i: usize = 0;
    while i < records.len()
        invariant
            i <= records@.len(),
            record_index(records@, t@, 0) == record_index(records@, t@, i as nat),
        decreases records@.len() - i,
    {
        if same_text(records[i].0.as_str(), t) {
            return Some(i);
        }
        i = i + 1;
    }
    None
}

proof fn lemma_record_index(records: Seq<Record>, t: Seq<char>, i: nat)
    requires
        i <= records.len(),
        record_named(records, t),
        forall|j: int| 0 <= j < i ==> records[j].0@ != t,
    ensures
        0 <= record_index(records, t, i) < records.len(),
    decreases records.len() - i,
{
    if i < records.len() && records[i as int].0@ != t {
        lemma_record_index(records, t, i + 1);
    }
    if i == records.len() {
        let w = choose|w: int| 0 <= w < records.len() && (#[trigger] records[w]).0@ == t;
        assert(records[w].0@ == t);
    }
}

fn c_arg_decl_of(p: &(String, String)) -> (r: String)
    ensures
        r@ == c_arg_decl(*p),
{
    let (n, t) = (p.0.as_str(), p.1.as_str());
    proof {
        reveal_strlit("&");
        assert("&"@ =~= amp());
        reveal_strlit("&mut");
    }
    let mut r = n.to_owned();
    if same_text(t, "&str") || same_text(t, "&[u8]") {
        push_str(&mut r, ":*const u8,");
        push_str(&mut r, n);
        push_str(&mut r, "_len:usize");
    } else if starts_with(t, "&") {
        push_str(&mut r, ":*");
        if starts_with(t, "&mut") {
            push_str(&mut r, "mut");
        } else {
            push_str(&mut r, "const");
        }
        push_str(&mut r, " ");
        push_str(&mut r, base(t));
    } else {
        push_str(&mut r, ":");
        let u = replace_text(t, "&mut", "&mut ");
        push_str(&mut r, u.as_str());
    }
    assert(r@ =~= c_arg_decl(*p));
    r
}

fn push_c_arg_init(s: &mut String, p: &(String, String))
    ensures
        final(s)@ == old(s)@ + c_arg_init(*p),
{
    let ghost start = s@;
    let (n, t) = (p.0.as_str(), p.1.as_str());
    proof {
        reveal_strlit("&");
        assert("&"@ =~= amp());
    }
    if same_text(t, "&str") || same_text(t, "&[u8]") {
        push_str(s, "let ");
        push_str(s, n);
        push_str(s, "=unsafe{input(");
        push_str(s, n);
        push_str(s, ",");
        push_str(s, n);
        push_str(s, "_len)}?;");
        if same_text(t, "&str") {
            push_str(s, "let ");
            push_str(s, n);
            push_str(s, "=std::str::from_utf8(");
            push_str(s, n);
            push_str(s, ").map_err(|e|e.to_string())?;");
        }
    } else if starts_with(t, "&") {
        let m = starts_with(t, "&mut");
        push_str(s, "let ");
        push_str(s, n);
        push_str(s, "=unsafe{(");
        push_str(s, n);
        push_str(s, " as *");
        push_str(s, if m { "mut" } else { "const" });
        push_str(s, " crate::api::");
        push_str(s, base(t));
        push_str(s, ").as_");
        push_str(s, if m { "mut" } else { "ref" });
        push_str(s, "()}.ok_or(\"null ");
        push_str(s, n);
        push_str(s, "\")?;");
    }
    assert(s@ =~= start + c_arg_init(*p));
}

fn push_c_call(s: &mut String, f: &FnSig)
    ensures
        final(s)@ == old(s)@ + c_call(*f),
{
    let ghost start = s@;
    let mut parts: Vec<String> = Vec::new();
    let mut i: usize = 0;
    while i < f.args.len()
        invariant
            i <= f.args@.len(),
            parts@.len() == i,
            forall|j: int| 0 <= j < i ==> (#[trigger] parts@[j])@ == f.args@[j].0@,
        decreases f.args@.len() - i,
    {
        parts.push(f.args[i].0.as_str().to_owned());
        i = i + 1;
    }
    assert(views(parts@) =~= Seq::new(f.args@.len(), |i: int| f.args@[i].0@));
    push_str(s, "crate::api::");
    push_str(s, f.name.as_str());
    push_str(s, "(");
    push_joined(s, &parts, ",");
    push_str(s, ")");
    if f.fallible {
        push_str(s, "?");
    }
    assert(s@ =~= start + c_call(*f));
}

fn push_c_value(s: &mut String, opaque: &Vec<String>, records: &Vec<Record>, f: &FnSig)
    ensures
        final(s)@ == old(s)@ + c_value(opaque@, records@, *f),
{
    let ghost start = s@;
    let t = f.ret.as_str();
    if contains_name(opaque.as_slice(), t) {
        push_str(s, "Box::into_raw(Box::new(");
        push_c_call(s, f);
        push_str(s, ")).cast::<");
        push_str(s, t);
        push_str(s, ">()");
    } else if same_text(t, "String") {
        push_str(s, "buffer(");
        push_c_call(s, f);
        push_str(s, ".into_bytes())");
    } else if same_text(t, "Vec<u8>") {
        push_str(s, "buffer(");
        push_c_call(s, f);
        push_str(s, ")");
    } else {
        match record_index_of(records, t) {
            Some(i) => {
                push_str(s, "{let value=");
                push_c_call(s, f);
                push_str(s, ";");
                push_str(s, t);
                push_str(s, "{");
                push_copied_fields(s, &records[i].1);
                push_str(s, "}}");
                assert(record_named(records@, t@)) by {
                    assert(records@[i as int].0@ == t@) by {
                        lemma_record_index_found(records@, t@, 0);
                    }
                }
            },
            None => {
                assert(!record_named(records@, t@)) by {
                    if record_named(records@, t@) {
                        lemma_record_index(records@, t@, 0);
                    }
                }
                push_c_call(s, f);
            },
        }
    }
    assert(s@ =~= start + c_value(opaque@, records@, *f));
}

proof fn lemma_record_index_found(records: Seq<Record>, t: Seq<char>, i: nat)
    ensures
        record_index(records, t, i) != -1 ==> i <= record_index(records, t, i) < records.len()
            && records[record_index(records, t, i)].0@ == t,
    decreases records.len() - i,
{
    if i < records.len() && records[i as int].0@ != t {
        lemma_record_index_found(records, t, i + 1);
    }
}

fn c_decls_of(opaque: &Vec<String>, f: &FnSig) -> (r: Vec<String>)
    ensures
        views(r@) == c_decls(opaque@, *f),
{
    let unit = same_text(f.ret.as_str(), "()");
    let mut decls: Vec<String> = Vec::new();
    let mut i: usize = 0;
    while i < f.args.len()
        invariant
            i <= f.args@.len(),
            decls@.len() == i,
            forall|j: int| 0 <= j < i ==> (#[trigger] decls@[j])@ == c_arg_decl(f.args@[j]),
        decreases f.args@.len() - i,
    {
        decls.push(c_arg_decl_of(&f.args[i]));
        i = i + 1;
    }
    let ghost args_part = views(decls@);
    assert(args_part =~= Seq::new(f.args@.len(), |i: int| c_arg_decl(f.args@[i])));
    if !unit {
        let mut o = "out:*mut ".to_owned();
        let t = f.ret.as_str();
        if contains_name(opaque.as_slice(), t) {
            push_str(&mut o, "*mut ");
            push_str(&mut o, t);
        } else if same_text(t, "String") || same_text(t, "Vec<u8>") {
            push_str(&mut o, "*mut TKBuffer");
        } else {
            push_str(&mut o, t);
        }
        assert(o@ =~= "out:*mut "@ + c_out_type(opaque@, f.ret@));
        let ghost before = decls@;
        decls.push(o);
        assert(views(decls@) =~= views(before).push(o@));
    }
    let ghost mid = views(decls@);
    assert(mid =~= args_part + (if f.ret@ != "()"@ {
        seq!["out:*mut "@ + c_out_type(opaque@, f.ret@)]
    } else {
        Seq::empty()
    }));
    let e = "error:*mut *mut TKBuffer".to_owned();
    let ghost before = decls@;
    decls.push(e);
    assert(views(decls@) =~= views(before).push(e@));
    assert(views(decls@) =~= c_decls(opaque@, *f));
    decls
}

fn push_c_init(s: &mut String, f: &FnSig)
    ensures
        final(s)@ == old(s)@ + c_init(*f),
{
    let ghost start = s@;
    let ghost p = Seq::new(f.args@.len(), |i: int| c_arg_init(f.args@[i]));
    let mut k: usize = 0;
    assert(p.take(0) =~= Seq::<Seq<char>>::empty());
    while k < f.args.len()
        invariant
            k <= f.args@.len(),
            p == Seq::new(f.args@.len(), |i: int| c_arg_init(f.args@[i])),
            s@ == start + concat(p.take(k as int)),
        decreases f.args@.len() - k,
    {
        proof {
            lemma_concat_step(p, k as int);
        }
        push_c_arg_init(s, &f.args[k]);
        k = k + 1;
    }
    assert(p.take(k as int) =~= p);
    let ghost s1 = s@;
    if !same_text(f.ret.as_str(), "()") {
        push_str(s, "if out.is_null(){return Err(\"null output\".into());}");
    }
    assert(s@ =~= start + c_init(*f));
}

fn push_c_statement(s: &mut String, opaque: &Vec<String>, records: &Vec<Record>, f: &FnSig)
    ensures
        final(s)@ == old(s)@ + c_statement(opaque@, records@, *f),
{
    let ghost start = s@;
    if same_text(f.ret.as_str(), "()") {
        push_c_value(s, opaque, records, f);
        push_str(s, ";");
    } else {
        push_str(s, "let value=");
        push_c_value(s, opaque, records, f);
        push_str(s, ";unsafe{out.write(value);}");
    }
    assert(s@ =~= start + c_statement(opaque@, records@, *f));
}

fn push_c_fn(s: &mut String, opaque: &Vec<String>, records: &Vec<Record>, f: &FnSig)
    ensures
        final(s)@ == old(s)@ + c_fn(opaque@, records@, *f),
{
    let ghost start = s@;
    let decls = c_decls_of(opaque, f);
    push_str(s, "#[unsafe(no_mangle)] pub unsafe extern \"C\" fn tidkod_");
    push_str(s, f.name.as_str());
    push_str(s, "(");
    push_joined(s, &decls, ",");
    push_str(s, ")->i32{let call=||{");
    push_c_init(s, f);
    push_c_statement(s, opaque, records, f);
    push_str(s, "Ok(())};unsafe{invoke(error,call)}}\n");
    assert(s@ =~= start + c_fn(opaque@, records@, *f));
}

fn push_c_handle(s: &mut String, t: &str)
    ensures
        final(s)@ == old(s)@ + c_handle(t@),
{
    let ghost start = s@;
    push_str(s, "pub struct ");
    push_str(s, t);
    push_str(s, "{_private:()}\n");
    push_str(s, "#[unsafe(no_mangle)] pub unsafe extern \"C\" fn tidkod_");
    let lower = lower_text(t);
    push_str(s, lower.as_str());
    push_str(s, "_free(value:*mut ");
    push_str(s, t);
    push_str(s, "){if !value.is_null(){unsafe{drop(Box::from_raw(value.cast::<crate::api::");
    push_str(s, t);
    push_str(s, ">()))}}}\n");
    assert(s@ =~= start + c_handle(t@));
}

fn push_c_record(s: &mut String, r: &Record)
    ensures
        final(s)@ == old(s)@ + c_record(*r),
{
    let ghost start = s@;
    push_str(s, "#[repr(C)] #[derive(Default)] pub struct ");
    push_str(s, r.0.as_str());
    push_str(s, "{");
    push_struct_fields(s, &r.1);
    push_str(s, "}\n");
    assert(s@ =~= start + c_record(*r));
}

/// The C ABI shims for the API (`c.rs`), as `c_abi_spec` spells them.
pub fn c_abi_source(opaque: &Vec<String>, records: &Vec<Record>, functions: &Vec<FnSig>) -> (r: String)
    ensures
        r@ == c_abi_spec(opaque@, records@, functions@),
{
    let ghost o = opaque@;
    let ghost rs = records@;
    let ghost fs = functions@;
    let mut s = "use crate::c_support::*;\n".to_owned();
    let ghost s0 = s@;
    let ghost p1 = Seq::new(rs.len(), |k: int| c_record(rs[k]));
    let mut k: usize = 0;
    assert(p1.take(0) =~= Seq::<Seq<char>>::empty());
    while k < records.len()
        invariant
            k <= rs.len(),
            rs == records@,
            p1 == Seq::new(rs.len(), |k: int| c_record(rs[k])),
            s@ == s0 + concat(p1.take(k as int)),
        decreases rs.len() - k,
    {
        proof {
            lemma_concat_step(p1, k as int);
        }
        push_c_record(&mut s, &records[k]);
        k = k + 1;
    }
    assert(p1.take(k as int) =~= p1);
    let ghost s1 = s@;
    let ghost p2 = Seq::new(o.len(), |k: int| c_handle(o[k]@));
    let mut k: usize = 0;
    assert(p2.take(0) =~= Seq::<Seq<char>>::empty());
    while k < opaque.len()
        invariant
            k <= o.len(),
            o == opaque@,
            p2 == Seq::new(o.len(), |k: int| c_handle(o[k]@)),
            s@ == s1 + concat(p2.take(k as int)),
        decreases o.len() - k,
    {
        proof {
            lemma_concat_step(p2, k as int);
        }
        push_c_handle(&mut s, opaque[k].as_str());
        k = k + 1;
    }
    assert(p2.take(k as int) =~= p2);
    let ghost s2 = s@;
    let ghost p3 = Seq::new(fs.len(), |k: int| c_fn(o, rs, fs[k]));
    let mut k: usize = 0;
    assert(p3.take(0) =~= Seq::<Seq<char>>::empty());
    while k < functions.len()
        invariant
            k <= fs.len(),
            fs == functions@,
            o == opaque@,
            rs == records@,
            p3 == Seq::new(fs.len(), |k: int| c_fn(o, rs, fs[k])),
            s@ == s2 + concat(p3.take(k as int)),
        decreases fs.len() - k,
    {
        proof {
            lemma_concat_step(p3, k as int);
        }
        push_c_fn(&mut s, opaque, records, &functions[k]);
        k = k + 1;
    }
    assert(p3.take(k as int) =~= p3);
    s
}

} // verus!
