//! The foreign API as its source file declares it: the public items read from the source,
//! sorted into records, opaque handles and functions and checked against the binding
//! schema, and the texts built from them (the API manifest, the Swift bridge module and
//! the C ABI shims).
use vstd::prelude::*;

use quote::ToTokens;

use super::same_text;
use super::schema::{
    compact, compact_spec, output, output_spec, primitive, primitive_spec, result_prefix,
    starts_with, named, valid_argument, valid_argument_spec, valid_field, valid_field_spec,
    valid_return, valid_return_spec,
};
use super::sig::{views, FnSig, Record};
use super::wrappers::{amp, base, mut_word, strip_all};
use crate::text::{
    compare_text, lemma_text_lt_total, lemma_text_lt_transitive, push_str, text_lt,
};

verus! {

#[verifier::external_type_specification]
#[verifier::external_body]
pub struct ExItem(syn::Item);

#[verifier::external_type_specification]
#[verifier::external_body]
pub struct ExAttribute(syn::Attribute);

#[verifier::external_type_specification]
#[verifier::external_body]
pub struct ExField(syn::Field);

#[verifier::external_type_specification]
#[verifier::external_body]
pub struct ExSignature(syn::Signature);

#[verifier::external_type_specification]
#[verifier::external_body]
pub struct ExFnArg(syn::FnArg);

/// An attribute of an item: whether its path is the single word `cfg`, and the tokens of
/// its whole meta (`cfg(feature = "native")`), as the token printer spaces them.
pub struct ApiAttr {
    pub cfg: bool,
    pub meta: String,
}

/// A field of a struct: its name (none in a tuple struct), whether it is public, and the
/// tokens of its type.
pub struct ApiField {
    pub name: Option<String>,
    pub public: bool,
    pub ty: String,
}

/// An argument of a function: `self` in any form, a pattern other than a plain name, or a
/// name with the tokens of its type.
pub enum ApiArg {
    Receiver,
    Pattern,
    Named(String, String),
}

/// A function's signature: whether it is `async`, whether it is `unsafe`, how many generic
/// parameters it has, its arguments, the tokens of its return type (none when it returns
/// nothing), and the tokens of the whole signature.
pub struct ApiFn {
    pub is_async: bool,
    pub is_unsafe: bool,
    pub generic_params: usize,
    pub args: Vec<ApiArg>,
    pub output: Option<String>,
    pub tokens: String,
}

/// A top-level item of the API source: a struct, a function, or anything else.
pub enum ApiItem {
    Struct { name: String, public: bool, attrs: Vec<ApiAttr>, fields: Vec<ApiField> },
    Function { name: String, public: bool, attrs: Vec<ApiAttr>, sig: ApiFn },
    Other,
}

/// The items that `syn::parse_file` reads from `source`, as plain values, or none when the
/// text is not a Rust source file.
pub uninterp spec fn parsed_api(source: Seq<char>) -> Option<Seq<ApiItem>>;

/// `syn::parse_file`, each item converted to plain values. The contract names the result;
/// what the parser accepts is not restated.
#[verifier::external_body]
pub(crate) fn parse_api(source: &str) -> (r: Option<Vec<ApiItem>>)
    ensures
        match r {
            Some(v) => parsed_api(source@) == Some(v@),
            None => parsed_api(source@) is None,
        },
{
    let file = syn::parse_file(source).ok()?;
    Some(file.items.iter().map(api_item).collect())
}

/// A parsed item as plain values: its variant, name, visibility, attributes and fields or
/// signature.
#[verifier::external_body]
fn api_item(item: &syn::Item) -> ApiItem {
    match item {
        syn::Item::Struct(s) => ApiItem::Struct {
            name: s.ident.to_string(),
            public: matches!(s.vis, syn::Visibility::Public(_)),
            attrs: s.attrs.iter().map(api_attr).collect(),
            fields: s.fields.iter().map(api_field).collect(),
        },
        syn::Item::Fn(f) => ApiItem::Function {
            name: f.sig.ident.to_string(),
            public: matches!(f.vis, syn::Visibility::Public(_)),
            attrs: f.attrs.iter().map(api_attr).collect(),
            sig: api_fn(&f.sig),
        },
        _ => ApiItem::Other,
    }
}

/// A parsed attribute as plain values (`Attribute::path().is_ident` and the meta's tokens).
#[verifier::external_body]
fn api_attr(a: &syn::Attribute) -> ApiAttr {
    ApiAttr { cfg: a.path().is_ident("cfg"), meta: a.meta.to_token_stream().to_string() }
}

/// A parsed field as plain values.
#[verifier::external_body]
fn api_field(f: &syn::Field) -> ApiField {
    ApiField {
        name: f.ident.as_ref().map(|i| i.to_string()),
        public: matches!(f.vis, syn::Visibility::Public(_)),
        ty: f.ty.to_token_stream().to_string(),
    }
}

/// A parsed signature as plain values.
#[verifier::external_body]
fn api_fn(s: &syn::Signature) -> ApiFn {
    ApiFn {
        is_async: s.asyncness.is_some(),
        is_unsafe: s.unsafety.is_some(),
        generic_params: s.generics.params.len(),
        args: s.inputs.iter().map(api_arg).collect(),
        output: match &s.output {
            syn::ReturnType::Default => None,
            syn::ReturnType::Type(_, t) => Some(t.to_token_stream().to_string()),
        },
        tokens: s.to_token_stream().to_string(),
    }
}

/// A parsed argument as plain values.
#[verifier::external_body]
fn api_arg(a: &syn::FnArg) -> ApiArg {
    match a {
        syn::FnArg::Receiver(_) => ApiArg::Receiver,
        syn::FnArg::Typed(t) => match &*t.pat {
            syn::Pat::Ident(p) => ApiArg::Named(p.ident.to_string(), t.ty.to_token_stream().to_string()),
            _ => ApiArg::Pattern,
        },
    }
}

/// The one feature gate the schema allows.
pub open spec fn native_gate() -> Seq<char> {
    "cfg(feature=\"native\")"@
}

/// Whether an item with attributes `attrs` is built, reading its `cfg` attributes in
/// order: each must be the native feature gate (an error otherwise), and the first one
/// excludes the item unless the native feature is on.
pub open spec fn gate(attrs: Seq<ApiAttr>, native: bool) -> Result<bool, ()>
    decreases attrs.len(),
{
    if attrs.len() == 0 {
        Ok(true)
    } else if !attrs[0].cfg {
        gate(attrs.drop_first(), native)
    } else if compact_spec(attrs[0].meta@) != native_gate() {
        Err(())
    } else if !native {
        Ok(false)
    } else {
        gate(attrs.drop_first(), native)
    }
}

fn gate_of(attrs: &Vec<ApiAttr>, native: bool) -> (r: Result<bool, ()>)
    ensures
        r == gate(attrs@, native),
{
    let mut i: usize = 0;
    assert(attrs@.skip(0) =~= attrs@);
    while i < attrs.len()
        invariant
            i <= attrs@.len(),
            gate(attrs@, native) == gate(attrs@.skip(i as int), native),
        decreases attrs@.len() - i,
    {
        assert(attrs@.skip(i as int).drop_first() =~= attrs@.skip(i + 1));
        assert(attrs@.skip(i as int)[0] == attrs@[i as int]);
        if attrs[i].cfg {
            let m = compact(attrs[i].meta.as_str());
            if !same_text(m.as_str(), "cfg(feature=\"native\")") {
                return Err(());
            }
            if !native {
                return Ok(false);
            }
        }
        i = i + 1;
    }
    assert(attrs@.skip(i as int).len() == 0);
    Ok(true)
}

/// A record as texts: its name and its fields' names and types.
pub type RecordText = (Seq<char>, Seq<(Seq<char>, Seq<char>)>);

pub open spec fn pair_view(p: (String, String)) -> (Seq<char>, Seq<char>) {
    (p.0@, p.1@)
}

pub open spec fn record_view(r: Record) -> RecordText {
    (r.0@, r.1@.map_values(|p: (String, String)| pair_view(p)))
}

pub open spec fn record_views(s: Seq<Record>) -> Seq<RecordText> {
    s.map_values(|r: Record| record_view(r))
}

/// `k` added to the sorted names `s`, in order, unless it is there.
pub open spec fn name_insert(s: Seq<Seq<char>>, k: Seq<char>) -> Seq<Seq<char>>
    decreases s.len(),
{
    if s.len() == 0 {
        seq![k]
    } else if text_lt(s[0], k) {
        seq![s[0]] + name_insert(s.drop_first(), k)
    } else if s[0] == k {
        s
    } else {
        seq![k] + s
    }
}

/// `r` added to the records `s` sorted by name, in order, replacing one of the same name.
pub open spec fn record_insert(s: Seq<RecordText>, r: RecordText) -> Seq<RecordText>
    decreases s.len(),
{
    if s.len() == 0 {
        seq![r]
    } else if text_lt(s[0].0, r.0) {
        seq![s[0]] + record_insert(s.drop_first(), r)
    } else if s[0].0 == r.0 {
        seq![r] + s.drop_first()
    } else {
        seq![r] + s
    }
}

proof fn lemma_name_insert_at(s: Seq<Seq<char>>, k: Seq<char>, j: int)
    requires
        0 <= j <= s.len(),
        forall|i: int| 0 <= i < j ==> text_lt(#[trigger] s[i], k),
        j < s.len() ==> !text_lt(s[j], k),
    ensures
        name_insert(s, k) == if j < s.len() && s[j] == k {
            s
        } else {
            s.take(j) + seq![k] + s.skip(j)
        },
    decreases j,
{
    if j > 0 {
        lemma_name_insert_at(s.drop_first(), k, j - 1);
        assert(text_lt(s[0], k));
        assert(s.drop_first().take(j - 1) =~= s.take(j).drop_first());
        assert(s.drop_first().skip(j - 1) =~= s.skip(j));
        assert(seq![s[0]] + (s.take(j).drop_first() + seq![k] + s.skip(j)) =~= s.take(j) + seq![k]
            + s.skip(j));
        assert(seq![s[0]] + s.drop_first() =~= s);
    } else {
        assert(s.take(0) + seq![k] + s.skip(0) =~= seq![k] + s);
    }
}

proof fn lemma_record_insert_at(s: Seq<RecordText>, r: RecordText, j: int)
    requires
        0 <= j <= s.len(),
        forall|i: int| 0 <= i < j ==> text_lt(#[trigger] s[i].0, r.0),
        j < s.len() ==> !text_lt(s[j].0, r.0),
    ensures
        record_insert(s, r) == if j < s.len() && s[j].0 == r.0 {
            s.update(j, r)
        } else {
            s.take(j) + seq![r] + s.skip(j)
        },
    decreases j,
{
    if j > 0 {
        lemma_record_insert_at(s.drop_first(), r, j - 1);
        assert(text_lt(s[0].0, r.0));
        assert(s.drop_first().take(j - 1) =~= s.take(j).drop_first());
        assert(s.drop_first().skip(j - 1) =~= s.skip(j));
        assert(seq![s[0]] + (s.take(j).drop_first() + seq![r] + s.skip(j)) =~= s.take(j) + seq![r]
            + s.skip(j));
        if j < s.len() && s[j].0 == r.0 {
            assert(seq![s[0]] + s.drop_first().update(j - 1, r) =~= s.update(j, r));
        }
    } else {
        assert(s.take(0) + seq![r] + s.skip(0) =~= seq![r] + s);
        if s.len() > 0 && s[0].0 == r.0 {
            assert(seq![r] + s.drop_first() =~= s.update(0, r));
        }
    }
}

fn insert_name(v: &mut Vec<String>, k: &str)
    ensures
        views(final(v)@) == name_insert(views(old(v)@), k@),
{
    let ghost s = views(v@);
    let mut j: usize = 0;
    while j < v.len() && compare_text(v[j].as_str(), k) == -1
        invariant
            j <= v@.len(),
            s == views(v@),
            forall|i: int| 0 <= i < j ==> text_lt(#[trigger] s[i], k@),
        decreases v@.len() - j,
    {
        j = j + 1;
    }
    proof {
        lemma_name_insert_at(s, k@, j as int);
    }
    if j < v.len() && same_text(v[j].as_str(), k) {
        return;
    }
    v.insert(j, k.to_owned());
    assert(views(v@) =~= s.take(j as int) + seq![k@] + s.skip(j as int));
}

fn insert_record(v: &mut Vec<Record>, r: Record)
    ensures
        record_views(final(v)@) == record_insert(record_views(old(v)@), record_view(r)),
{
    let ghost s = record_views(v@);
    let ghost rv = record_view(r);
    let mut j: usize = 0;
    while j < v.len() && compare_text(v[j].0.as_str(), r.0.as_str()) == -1
        invariant
            j <= v@.len(),
            s == record_views(v@),
            rv == record_view(r),
            forall|i: int| 0 <= i < j ==> text_lt(#[trigger] s[i].0, rv.0),
        decreases v@.len() - j,
    {
        j = j + 1;
    }
    proof {
        lemma_record_insert_at(s, rv, j as int);
    }
    if j < v.len() && same_text(v[j].0.as_str(), r.0.as_str()) {
        v.set(j, r);
        assert(record_views(v@) =~= s.update(j as int, rv));
    } else {
        v.insert(j, r);
        assert(record_views(v@) =~= s.take(j as int) + seq![rv] + s.skip(j as int));
    }
}

pub open spec fn gate_error() -> Seq<char> {
    "unsupported binding feature gate"@
}

/// What reading the name of an unnamed field reports.
pub open spec fn unnamed_error() -> Seq<char> {
    "called `Option::unwrap()` on a `None` value"@
}

/// The first line of the API manifest.
pub open spec fn manifest_head() -> Seq<char> {
    "Generated from src/api.rs. Do not edit generated files.\n"@
}

pub open spec fn all_public(fields: Seq<ApiField>) -> bool {
    forall|i: int| 0 <= i < fields.len() ==> (#[trigger] fields[i]).public
}

pub open spec fn all_named(fields: Seq<ApiField>) -> bool {
    forall|i: int| 0 <= i < fields.len() ==> (#[trigger] fields[i]).name is Some
}

pub open spec fn field_text(f: ApiField) -> (Seq<char>, Seq<char>) {
    (
        match f.name {
            Some(n) => n@,
            None => Seq::empty(),
        },
        compact_spec(f.ty@),
    )
}

/// The public items sorted so far: opaque handle names and records (each sorted by name,
/// a later record replacing an earlier one of the same name), the positions of the
/// functions in the source, and the manifest so far.
pub struct Collected {
    pub opaque: Seq<Seq<char>>,
    pub records: Seq<RecordText>,
    pub fns: Seq<int>,
    pub manifest: Seq<char>,
}

/// Sorting the `i`-th item, `it`, into `c`: a public, built struct whose fields are all
/// public is a record (every field must be named), any other public, built struct an opaque
/// handle; a public, built function is kept and its signature added to the manifest.
pub open spec fn collect_step(c: Collected, it: ApiItem, i: int, native: bool) -> Result<Collected, Seq<char>> {
    match it {
        ApiItem::Struct { name, public, attrs, fields } => if !public {
            Ok(c)
        } else {
            match gate(attrs@, native) {
                Err(_) => Err(gate_error()),
                Ok(built) => if !built {
                    Ok(c)
                } else if all_public(fields@) {
                    if all_named(fields@) {
                        Ok(
                            Collected {
                                records: record_insert(
                                    c.records,
                                    (name@, fields@.map_values(|f: ApiField| field_text(f))),
                                ),
                                ..c
                            },
                        )
                    } else {
                        Err(unnamed_error())
                    }
                } else {
                    Ok(Collected { opaque: name_insert(c.opaque, name@), ..c })
                },
            }
        },
        ApiItem::Function { name, public, attrs, sig } => if !public {
            Ok(c)
        } else {
            match gate(attrs@, native) {
                Err(_) => Err(gate_error()),
                Ok(built) => if !built {
                    Ok(c)
                } else {
                    Ok(
                        Collected {
                            fns: c.fns.push(i),
                            manifest: c.manifest + sig.tokens@ + "\n"@,
                            ..c
                        },
                    )
                },
            }
        },
        ApiItem::Other => Ok(c),
    }
}

/// The first `n` items sorted, or the first error met.
pub open spec fn collected(items: Seq<ApiItem>, native: bool, n: nat) -> Result<Collected, Seq<char>>
    decreases n,
{
    if n == 0 {
        Ok(Collected { opaque: Seq::empty(), records: Seq::empty(), fns: Seq::empty(), manifest: manifest_head() })
    } else {
        match collected(items, native, (n - 1) as nat) {
            Err(e) => Err(e),
            Ok(c) => collect_step(c, items[n - 1], n - 1, native),
        }
    }
}

/// An error met among the first `n` items stays the error of any longer prefix.
proof fn lemma_collected_err(items: Seq<ApiItem>, native: bool, n: nat, m: nat)
    requires
        n <= m,
        collected(items, native, n) is Err,
    ensures
        collected(items, native, m) == collected(items, native, n),
    decreases m - n,
{
    if n < m {
        lemma_collected_err(items, native, n, (m - 1) as nat);
    }
}

fn field_texts_of(fields: &Vec<ApiField>) -> (r: Option<Vec<(String, String)>>)
    ensures
        match r {
            Some(v) => all_named(fields@) && v@.map_values(|p: (String, String)| pair_view(p))
                == fields@.map_values(|f: ApiField| field_text(f)),
            None => !all_named(fields@),
        },
{
    let mut v: Vec<(String, String)> = Vec::new();
    let mut i: usize = 0;
    while i < fields.len()
        invariant
            i <= fields@.len(),
            v@.len() == i,
            forall|k: int| 0 <= k < i ==> (#[trigger] fields@[k]).name is Some,
            forall|k: int| 0 <= k < i ==> pair_view(#[trigger] v@[k]) == field_text(fields@[k]),
        decreases fields@.len() - i,
    {
        let f = &fields[i];
        match &f.name {
            None => return None,
            Some(n) => {
                let t = compact(f.ty.as_str());
                v.push((n.as_str().to_owned(), t));
            },
        }
        i = i + 1;
    }
    assert(v@.map_values(|p: (String, String)| pair_view(p)) =~= fields@.map_values(
        |f: ApiField| field_text(f),
    ));
    Some(v)
}

fn all_public_of(fields: &Vec<ApiField>) -> (r: bool)
    ensures
        r == all_public(fields@),
{
    let mut i: usize = 0;
    while i < fields.len()
        invariant
            i <= fields@.len(),
            forall|k: int| 0 <= k < i ==> (#[trigger] fields@[k]).public,
        decreases fields@.len() - i,
    {
        if !fields[i].public {
            return false;
        }
        i = i + 1;
    }
    true
}

pub open spec fn index_views(v: Seq<usize>) -> Seq<int> {
    v.map_values(|k: usize| k as int)
}

/// The public, built items sorted as `collected` says: opaque handle names, records,
/// the positions of the functions, and the manifest.
fn collect(items: &Vec<ApiItem>, native: bool) -> (r: Result<(Vec<String>, Vec<Record>, Vec<usize>, String), String>)
    ensures
        match r {
            Ok((o, rs, fs, m)) => collected(items@, native, items@.len()) == Ok::<Collected, Seq<char>>(
                Collected {
                    opaque: views(o@),
                    records: record_views(rs@),
                    fns: index_views(fs@),
                    manifest: m@,
                },
            ),
            Err(e) => collected(items@, native, items@.len()) == Err::<Collected, Seq<char>>(e@),
        },
{
    let mut opaque: Vec<String> = Vec::new();
    let mut records: Vec<Record> = Vec::new();
    let mut fns: Vec<usize> = Vec::new();
    let mut manifest = "Generated from src/api.rs. Do not edit generated files.\n".to_owned();
    let mut i: usize = 0;
    assert(views(opaque@) =~= Seq::empty());
    assert(record_views(records@) =~= Seq::empty());
    assert(index_views(fns@) =~= Seq::empty());
    while i < items.len()
        invariant
            i <= items@.len(),
            collected(items@, native, i as nat) == Ok::<Collected, Seq<char>>(
                Collected {
                    opaque: views(opaque@),
                    records: record_views(records@),
                    fns: index_views(fns@),
                    manifest: manifest@,
                },
            ),
        decreases items@.len() - i,
    {
        let ghost c = Collected {
            opaque: views(opaque@),
            records: record_views(records@),
            fns: index_views(fns@),
            manifest: manifest@,
        };
        match &items[i] {
            ApiItem::Struct { name, public, attrs, fields } => {
                if *public {
                    match gate_of(attrs, native) {
                        Err(_) => {
                            proof {
                                lemma_collected_err(items@, native, (i + 1) as nat, items@.len());
                            }
                            return Err("unsupported binding feature gate".to_owned());
                        },
                        Ok(built) => {
                            if built {
                                if all_public_of(fields) {
                                    match field_texts_of(fields) {
                                        None => {
                                            proof {
                                                lemma_collected_err(
                                                    items@,
                                                    native,
                                                    (i + 1) as nat,
                                                    items@.len(),
                                                );
                                            }
                                            return Err(
                                                "called `Option::unwrap()` on a `None` value".to_owned(),
                                            );
                                        },
                                        Some(f) => {
                                            let rec: Record = (name.as_str().to_owned(), f);
                                            assert(record_view(rec).1 =~= rec.1@.map_values(
                                                |p: (String, String)| pair_view(p),
                                            ));
                                            insert_record(&mut records, rec);
                                        },
                                    }
                                } else {
                                    insert_name(&mut opaque, name.as_str());
                                }
                            }
                        },
                    }
                }
            },
            ApiItem::Function { name, public, attrs, sig } => {
                if *public {
                    match gate_of(attrs, native) {
                        Err(_) => {
                            proof {
                                lemma_collected_err(items@, native, (i + 1) as nat, items@.len());
                            }
                            return Err("unsupported binding feature gate".to_owned());
                        },
                        Ok(built) => {
                            if built {
                                fns.push(i);
                                push_str(&mut manifest, sig.tokens.as_str());
                                push_str(&mut manifest, "\n");
                                assert(index_views(fns@) =~= c.fns.push(i as int));
                            }
                        },
                    }
                }
            },
            ApiItem::Other => {},
        }
        i = i + 1;
    }
    Ok((opaque, records, fns, manifest))
}

pub open spec fn safe_error() -> Seq<char> {
    "foreign API functions must be safe, synchronous and non-generic"@
}

pub open spec fn return_error(t: Seq<char>) -> Seq<char> {
    "unsupported return "@ + t
}

pub open spec fn argument_error(t: Seq<char>) -> Seq<char> {
    "unsupported argument "@ + t
}

pub open spec fn receiver_error() -> Seq<char> {
    "receivers are not supported"@
}

pub open spec fn pattern_error() -> Seq<char> {
    "argument pattern unsupported"@
}

pub open spec fn fields_error() -> Seq<char> {
    "records must contain fixed-width primitives"@
}

/// A function's return type with its spaces removed, `()` when it returns nothing.
pub open spec fn ret_text(sig: ApiFn) -> Seq<char> {
    match sig.output {
        Some(t) => compact_spec(t@),
        None => "()"@,
    }
}

/// Whether a return type can be split as `output` cuts it: a `Result<` type must be longer
/// than the prefix and end with a one-byte character.
pub open spec fn splittable(t: Seq<char>) -> bool {
    result_prefix().is_prefix_of(t) ==> t.len() >= 8 && (t.last() as u32) < 0x80
}

pub open spec fn record_names(rs: Seq<RecordText>) -> Seq<Seq<char>> {
    rs.map_values(|r: RecordText| r.0)
}

/// A type a function may return, among the records named `rnames` and the handles `opaque`.
pub open spec fn valid_return_text(t: Seq<char>, rnames: Seq<Seq<char>>, opaque: Seq<Seq<char>>) -> bool {
    ||| primitive_spec(t)
    ||| rnames.contains(t)
    ||| opaque.contains(t)
    ||| t == "String"@
    ||| t == "Vec<u8>"@
}

/// A type a function may take, among the handles `opaque`.
pub open spec fn valid_argument_text(t: Seq<char>, opaque: Seq<Seq<char>>) -> bool {
    ||| primitive_spec(t) && t != "()"@
    ||| t == "&str"@
    ||| t == "&[u8]"@
    ||| amp().is_prefix_of(t) && opaque.contains(strip_all(strip_all(t, amp()), mut_word()))
}

/// The first argument that is not a plain name with a type: `self`, or another pattern.
pub open spec fn arg_shape_error(args: Seq<ApiArg>) -> Option<Seq<char>>
    decreases args.len(),
{
    if args.len() == 0 {
        None
    } else {
        match args[0] {
            ApiArg::Receiver => Some(receiver_error()),
            ApiArg::Pattern => Some(pattern_error()),
            ApiArg::Named(_, _) => arg_shape_error(args.drop_first()),
        }
    }
}

/// The first argument whose type the schema refuses.
pub open spec fn arg_type_error(args: Seq<ApiArg>, opaque: Seq<Seq<char>>) -> Option<Seq<char>>
    decreases args.len(),
{
    if args.len() == 0 {
        None
    } else {
        match args[0] {
            ApiArg::Named(_, t) => if !valid_argument_text(compact_spec(t@), opaque) {
                Some(argument_error(compact_spec(t@)))
            } else {
                arg_type_error(args.drop_first(), opaque)
            },
            _ => arg_type_error(args.drop_first(), opaque),
        }
    }
}

/// What the schema reports of a function's signature, checked in order: it must be safe,
/// synchronous and non-generic, return a supported type, name its arguments plainly, and
/// take only supported types.
pub open spec fn fn_error(sig: ApiFn, rnames: Seq<Seq<char>>, opaque: Seq<Seq<char>>) -> Option<Seq<char>> {
    let t = ret_text(sig);
    if sig.is_async || sig.is_unsafe || sig.generic_params > 0 {
        Some(safe_error())
    } else if !splittable(t) {
        Some(return_error(t))
    } else if !valid_return_text(output_spec(t).0, rnames, opaque) {
        Some(return_error(output_spec(t).0))
    } else if arg_shape_error(sig.args@) is Some {
        arg_shape_error(sig.args@)
    } else {
        arg_type_error(sig.args@, opaque)
    }
}

pub open spec fn item_sig(it: ApiItem) -> ApiFn {
    match it {
        ApiItem::Function { sig, .. } => sig,
        _ => arbitrary(),
    }
}

/// The error of the first of the functions at `fns` that the schema refuses.
pub open spec fn fns_error(items: Seq<ApiItem>, fns: Seq<int>, rnames: Seq<Seq<char>>, opaque: Seq<Seq<char>>) -> Option<Seq<char>>
    decreases fns.len(),
{
    if fns.len() == 0 {
        None
    } else {
        match fn_error(item_sig(items[fns[0]]), rnames, opaque) {
            Some(e) => Some(e),
            None => fns_error(items, fns.drop_first(), rnames, opaque),
        }
    }
}

/// Every field of every record is a fixed-width primitive.
pub open spec fn fields_ok(rs: Seq<RecordText>) -> bool {
    forall|i: int, j: int|
        0 <= i < rs.len() && 0 <= j < rs[i].1.len() ==> valid_field_spec(#[trigger] rs[i].1[j].1)
}

/// What reading the API reports: the first error met sorting the items, else the first
/// refused function, else a record with a field that is not a fixed-width primitive.
pub open spec fn api_error(items: Seq<ApiItem>, native: bool) -> Option<Seq<char>> {
    match collected(items, native, items.len()) {
        Err(e) => Some(e),
        Ok(c) => match fns_error(items, c.fns, record_names(c.records), c.opaque) {
            Some(e) => Some(e),
            None => if fields_ok(c.records) {
                None
            } else {
                Some(fields_error())
            },
        },
    }
}

pub open spec fn arg_text(a: ApiArg) -> (Seq<char>, Seq<char>) {
    match a {
        ApiArg::Named(n, t) => (n@, compact_spec(t@)),
        _ => (Seq::empty(), Seq::empty()),
    }
}

/// A function as texts: its name, its arguments' names and types, the type it returns and
/// whether it can fail.
pub type FnText = (Seq<char>, Seq<(Seq<char>, Seq<char>)>, Seq<char>, bool);

pub open spec fn fn_text(name: Seq<char>, sig: ApiFn) -> FnText {
    (
        name,
        sig.args@.map_values(|a: ApiArg| arg_text(a)),
        output_spec(ret_text(sig)).0,
        output_spec(ret_text(sig)).1,
    )
}

pub open spec fn item_fn_text(it: ApiItem) -> FnText {
    match it {
        ApiItem::Function { name, sig, .. } => fn_text(name@, sig),
        _ => arbitrary(),
    }
}

pub open spec fn sig_view(f: FnSig) -> FnText {
    (f.name@, f.args@.map_values(|p: (String, String)| pair_view(p)), f.ret@, f.fallible)
}

/// The API as the binding generators take it: the opaque handle names and the records,
/// each sorted by name, the functions in source order, and the manifest listing their
/// signatures.
pub struct ApiModel {
    pub opaque: Vec<String>,
    pub records: Vec<Record>,
    pub functions: Vec<FnSig>,
    pub manifest: String,
}

/// What `api_model` gives for items the schema accepts.
pub open spec fn model_matches(m: ApiModel, items: Seq<ApiItem>, native: bool) -> bool {
    match collected(items, native, items.len()) {
        Ok(c) => {
            &&& views(m.opaque@) == c.opaque
            &&& record_views(m.records@) == c.records
            &&& m.functions@.map_values(|f: FnSig| sig_view(f)) == c.fns.map_values(
                |k: int| item_fn_text(items[k]),
            )
            &&& m.manifest@ == c.manifest
        },
        Err(_) => false,
    }
}

proof fn lemma_named_views(v: Seq<String>, t: Seq<char>)
    ensures
        named(v, t) == views(v).contains(t),
{
    if named(v, t) {
        let i = choose|i: int| 0 <= i < v.len() && (#[trigger] v[i])@ == t;
        assert(views(v)[i] == t);
    }
    if views(v).contains(t) {
        let i = choose|i: int| 0 <= i < views(v).len() && views(v)[i] == t;
        assert(v[i]@ == t);
    }
}

fn ret_text_of(sig: &ApiFn) -> (r: String)
    ensures
        r@ == ret_text(*sig),
{
    match &sig.output {
        Some(t) => compact(t.as_str()),
        None => "()".to_owned(),
    }
}

fn splittable_of(t: &str) -> (r: bool)
    ensures
        r == splittable(t@),
{
    proof {
        reveal_strlit("Result<");
        assert("Result<"@ =~= result_prefix());
    }
    if starts_with(t, "Result<") {
        let n = t.unicode_len();
        n >= 8 && (t.get_char(n - 1) as u32) < 0x80
    } else {
        true
    }
}

fn fn_check(sig: &ApiFn, rnames: &Vec<String>, opaque: &Vec<String>) -> (r: Option<String>)
    ensures
        match r {
            Some(e) => fn_error(*sig, views(rnames@), views(opaque@)) == Some(e@),
            None => fn_error(*sig, views(rnames@), views(opaque@)) is None,
        },
{
    if sig.is_async || sig.is_unsafe || sig.generic_params > 0 {
        return Some("foreign API functions must be safe, synchronous and non-generic".to_owned());
    }
    let t = ret_text_of(sig);
    if !splittable_of(t.as_str()) {
        let mut e = "unsupported return ".to_owned();
        push_str(&mut e, t.as_str());
        return Some(e);
    }
    let (ret, _) = output(t.as_str());
    let ok = valid_return(ret.as_str(), rnames.as_slice(), opaque.as_slice());
    proof {
        lemma_named_views(rnames@, ret@);
        lemma_named_views(opaque@, ret@);
    }
    if !ok {
        let mut e = "unsupported return ".to_owned();
        push_str(&mut e, ret.as_str());
        return Some(e);
    }
    let args = &sig.args;
    let ghost rest_error = fn_error(*sig, views(rnames@), views(opaque@));
    assert(rest_error == (if arg_shape_error(args@) is Some {
        arg_shape_error(args@)
    } else {
        arg_type_error(args@, views(opaque@))
    }));
    let mut i: usize = 0;
    assert(args@.skip(0) =~= args@);
    while i < args.len()
        invariant
            i <= args@.len(),
            arg_shape_error(args@) == arg_shape_error(args@.skip(i as int)),
            rest_error == fn_error(*sig, views(rnames@), views(opaque@)),
            rest_error == (if arg_shape_error(args@) is Some {
                arg_shape_error(args@)
            } else {
                arg_type_error(args@, views(opaque@))
            }),
        decreases args@.len() - i,
    {
        assert(args@.skip(i as int).drop_first() =~= args@.skip(i + 1));
        assert(args@.skip(i as int)[0] == args@[i as int]);
        match &args[i] {
            ApiArg::Receiver => return Some("receivers are not supported".to_owned()),
            ApiArg::Pattern => return Some("argument pattern unsupported".to_owned()),
            ApiArg::Named(_, _) => {},
        }
        i = i + 1;
    }
    assert(args@.skip(i as int).len() == 0);
    let mut i: usize = 0;
    while i < args.len()
        invariant
            i <= args@.len(),
            arg_type_error(args@, views(opaque@)) == arg_type_error(args@.skip(i as int), views(opaque@)),
            rest_error == fn_error(*sig, views(rnames@), views(opaque@)),
            rest_error == arg_type_error(args@, views(opaque@)),
        decreases args@.len() - i,
    {
        assert(args@.skip(i as int).drop_first() =~= args@.skip(i + 1));
        assert(args@.skip(i as int)[0] == args@[i as int]);
        match &args[i] {
            ApiArg::Named(_, t) => {
                let c = compact(t.as_str());
                let ok = valid_argument(c.as_str(), opaque.as_slice());
                proof {
                    lemma_named_views(opaque@, strip_all(strip_all(c@, amp()), mut_word()));
                }
                if !ok {
                    let mut e = "unsupported argument ".to_owned();
                    push_str(&mut e, c.as_str());
                    return Some(e);
                }
            },
            _ => {},
        }
        i = i + 1;
    }
    None
}

proof fn lemma_collected_fns(items: Seq<ApiItem>, native: bool, n: nat)
    requires
        n <= items.len(),
    ensures
        collected(items, native, n) matches Ok(c) ==> forall|k: int|
            0 <= k < c.fns.len() ==> 0 <= #[trigger] c.fns[k] < n && items[c.fns[k]] is Function,
    decreases n,
{
    if n > 0 {
        lemma_collected_fns(items, native, (n - 1) as nat);
    }
}

proof fn lemma_fns_error_none(items: Seq<ApiItem>, fns: Seq<int>, rnames: Seq<Seq<char>>, opaque: Seq<Seq<char>>)
    requires
        fns_error(items, fns, rnames, opaque) is None,
    ensures
        forall|k: int|
            0 <= k < fns.len() ==> fn_error(item_sig(items[#[trigger] fns[k]]), rnames, opaque) is None,
    decreases fns.len(),
{
    if fns.len() > 0 {
        lemma_fns_error_none(items, fns.drop_first(), rnames, opaque);
        assert forall|k: int| 0 <= k < fns.len() implies fn_error(
            item_sig(items[#[trigger] fns[k]]),
            rnames,
            opaque,
        ) is None by {
            if k > 0 {
                assert(fns[k] == fns.drop_first()[k - 1]);
            }
        }
    }
}

proof fn lemma_shape_named(args: Seq<ApiArg>)
    requires
        arg_shape_error(args) is None,
    ensures
        forall|i: int| 0 <= i < args.len() ==> #[trigger] args[i] is Named,
    decreases args.len(),
{
    if args.len() > 0 {
        lemma_shape_named(args.drop_first());
        assert forall|i: int| 0 <= i < args.len() implies #[trigger] args[i] is Named by {
            if i > 0 {
                assert(args[i] == args.drop_first()[i - 1]);
            }
        }
    }
}

fn fn_sig_of(name: &String, sig: &ApiFn) -> (r: FnSig)
    requires
        splittable(ret_text(*sig)),
    ensures
        sig_view(r) == fn_text(name@, *sig),
{
    let mut args: Vec<(String, String)> = Vec::new();
    let mut i: usize = 0;
    while i < sig.args.len()
        invariant
            i <= sig.args@.len(),
            args@.len() == i,
            forall|k: int| 0 <= k < i ==> pair_view(#[trigger] args@[k]) == arg_text(sig.args@[k]),
        decreases sig.args@.len() - i,
    {
        match &sig.args[i] {
            ApiArg::Named(n, t) => args.push((n.as_str().to_owned(), compact(t.as_str()))),
            _ => args.push((String::new(), String::new())),
        }
        i = i + 1;
    }
    let t = ret_text_of(sig);
    let (ret, fallible) = output(t.as_str());
    let r = FnSig { name: name.as_str().to_owned(), args, ret, fallible };
    assert(r.args@.map_values(|p: (String, String)| pair_view(p)) =~= sig.args@.map_values(
        |a: ApiArg| arg_text(a),
    ));
    r
}

/// Sorts the parsed items of the API source into opaque handles, records and functions,
/// keeping the public items that the build includes (`native` tells whether the native
/// feature is on), and checks them against the binding schema. On success gives what
/// `collected` sorts and the manifest of the functions' signatures; otherwise the first
/// error, as `api_error` orders them.
pub fn api_model(items: &Vec<ApiItem>, native: bool) -> (r: Result<ApiModel, String>)
    ensures
        match r {
            Ok(m) => api_error(items@, native) is None && model_matches(m, items@, native),
            Err(e) => api_error(items@, native) == Some(e@),
        },
{
    let (opaque, records, fns, manifest) = match collect(items, native) {
        Ok(x) => x,
        Err(e) => return Err(e),
    };
    let ghost c = Collected {
        opaque: views(opaque@),
        records: record_views(records@),
        fns: index_views(fns@),
        manifest: manifest@,
    };
    proof {
        lemma_collected_fns(items@, native, items@.len());
    }
    let mut rnames: Vec<String> = Vec::new();
    let mut i: usize = 0;
    while i < records.len()
        invariant
            i <= records@.len(),
            views(rnames@) == record_names(record_views(records@)).take(i as int),
        decreases records@.len() - i,
    {
        let ghost names = record_names(record_views(records@));
        assert(names[i as int] == records@[i as int].0@);
        let nm = records[i].0.as_str().to_owned();
        let ghost before = rnames@;
        rnames.push(nm);
        assert(views(rnames@) =~= views(before).push(names[i as int]));
        assert(names.take(i + 1) =~= names.take(i as int).push(names[i as int]));
        i = i + 1;
    }
    assert(record_names(record_views(records@)).take(i as int) =~= record_names(c.records));
    let ghost rn = views(rnames@);
    let mut k: usize = 0;
    assert(c.fns.skip(0) =~= c.fns);
    while k < fns.len()
        invariant
            k <= fns@.len(),
            c.fns == index_views(fns@),
            rn == views(rnames@),
            c.opaque == views(opaque@),
            collected(items@, native, items@.len()) == Ok::<Collected, Seq<char>>(c),
            rn == record_names(c.records),
            forall|j: int|
                0 <= j < c.fns.len() ==> 0 <= #[trigger] c.fns[j] < items@.len()
                    && items@[c.fns[j]] is Function,
            fns_error(items@, c.fns, rn, c.opaque) == fns_error(items@, c.fns.skip(k as int), rn, c.opaque),
        decreases fns@.len() - k,
    {
        assert(c.fns.skip(k as int).drop_first() =~= c.fns.skip(k + 1));
        assert(c.fns.skip(k as int)[0] == c.fns[k as int]);
        assert(c.fns[k as int] == fns@[k as int]);
        match &items[fns[k]] {
            ApiItem::Function { sig, .. } => {
                match fn_check(sig, &rnames, &opaque) {
                    Some(e) => return Err(e),
                    None => {},
                }
            },
            _ => {},
        }
        k = k + 1;
    }
    assert(c.fns.skip(k as int).len() == 0);
    proof {
        lemma_fns_error_none(items@, c.fns, rn, c.opaque);
    }
    let mut i: usize = 0;
    while i < records.len()
        invariant
            i <= records@.len(),
            c.records == record_views(records@),
            collected(items@, native, items@.len()) == Ok::<Collected, Seq<char>>(c),
            rn == record_names(c.records),
            fns_error(items@, c.fns, rn, c.opaque) is None,
            forall|a: int, b: int|
                0 <= a < i && 0 <= b < c.records[a].1.len() ==> valid_field_spec(
                    #[trigger] c.records[a].1[b].1,
                ),
        decreases records@.len() - i,
    {
        let fields = &records[i].1;
        let mut j: usize = 0;
        while j < fields.len()
            invariant
                i < records@.len(),
                j <= fields@.len(),
                fields@ == records@[i as int].1@,
                c.records == record_views(records@),
                collected(items@, native, items@.len()) == Ok::<Collected, Seq<char>>(c),
                rn == record_names(c.records),
                fns_error(items@, c.fns, rn, c.opaque) is None,
                forall|a: int, b: int|
                    0 <= a < i && 0 <= b < c.records[a].1.len() ==> valid_field_spec(
                        #[trigger] c.records[a].1[b].1,
                    ),
                forall|b: int| 0 <= b < j ==> valid_field_spec(#[trigger] c.records[i as int].1[b].1),
            decreases fields@.len() - j,
        {
            assert(c.records[i as int].1[j as int].1 == fields@[j as int].1@);
            if !valid_field(fields[j].1.as_str()) {
                assert(!fields_ok(c.records));
                return Err("records must contain fixed-width primitives".to_owned());
            }
            j = j + 1;
        }
        i = i + 1;
    }
    let mut functions: Vec<FnSig> = Vec::new();
    let mut k: usize = 0;
    while k < fns.len()
        invariant
            k <= fns@.len(),
            c.fns == index_views(fns@),
            functions@.len() == k,
            forall|j: int|
                0 <= j < c.fns.len() ==> 0 <= #[trigger] c.fns[j] < items@.len()
                    && items@[c.fns[j]] is Function,
            forall|j: int|
                0 <= j < c.fns.len() ==> fn_error(item_sig(items@[#[trigger] c.fns[j]]), rn, c.opaque)
                    is None,
            forall|j: int|
                0 <= j < k ==> sig_view(#[trigger] functions@[j]) == item_fn_text(items@[c.fns[j]]),
        decreases fns@.len() - k,
    {
        assert(c.fns[k as int] == fns@[k as int]);
        let ghost it = items@[c.fns[k as int]];
        match &items[fns[k]] {
            ApiItem::Function { name, sig, .. } => {
                assert(fn_error(item_sig(it), rn, c.opaque) is None);
                let f = fn_sig_of(name, sig);
                functions.push(f);
            },
            _ => {},
        }
        k = k + 1;
    }
    let m = ApiModel { opaque, records, functions, manifest };
    assert(m.functions@.map_values(|f: FnSig| sig_view(f)) =~= c.fns.map_values(
        |k: int| item_fn_text(items@[k]),
    ));
    Ok(m)
}

/// `s` with every occurrence of the nonempty `from`, found left to right without overlap,
/// replaced by `to`, as `str::replace` does.
pub open spec fn replace_all(s: Seq<char>, from: Seq<char>, to: Seq<char>) -> Seq<char>
    decreases s.len(),
{
    if s.len() == 0 || from.len() == 0 {
        s
    } else if from.is_prefix_of(s) {
        to + replace_all(s.skip(from.len() as int), from, to)
    } else {
        seq![s[0]] + replace_all(s.drop_first(), from, to)
    }
}

pub fn replace_text(s: &str, from: &str, to: &str) -> (r: String)
    requires
        from@.len() > 0,
    ensures
        r@ == replace_all(s@, from@, to@),
{
    let n = s.unicode_len();
    let m = from.unicode_len();
    let mut r = String::new();
    let mut i: usize = 0;
    assert(s@.skip(0) =~= s@);
    while i < n
        invariant
            i <= n,
            n == s@.len(),
            m == from@.len(),
            m > 0,
            r@ + replace_all(s@.skip(i as int), from@, to@) == replace_all(s@, from@, to@),
        decreases n - i,
    {
        let ghost rest = s@.skip(i as int);
        if m <= n - i && same_text(s.substring_char(i, i + m), from) {
            assert(from@.is_prefix_of(rest)) by {
                assert(rest.take(m as int) =~= s@.subrange(i as int, i + m));
            }
            assert(rest.skip(m as int) =~= s@.skip(i + m));
            push_str(&mut r, to);
            i = i + m;
        } else {
            assert(!from@.is_prefix_of(rest)) by {
                if from@.is_prefix_of(rest) {
                    assert(rest.take(m as int) =~= s@.subrange(i as int, i + m));
                }
            }
            assert(rest.drop_first() =~= s@.skip(i + 1));
            let c = s.get_char(i);
            crate::text::push_char(&mut r, c);
            i = i + 1;
        }
    }
    assert(s@.skip(i as int).len() == 0);
    r
}

/// What is reported of a source that does not parse as Rust.
pub open spec fn parse_error() -> Seq<char> {
    "the API source is not valid Rust"@
}

/// Reads the API from its source text: parses it, then sorts and checks its items as
/// `api_model` does. A text that does not parse is refused.
pub fn read_api(source: &str, native: bool) -> (r: Result<ApiModel, String>)
    ensures
        match parsed_api(source@) {
            None => r matches Err(e) && e@ == parse_error(),
            Some(items) => match r {
                Ok(m) => api_error(items, native) is None && model_matches(m, items, native),
                Err(e) => api_error(items, native) == Some(e@),
            },
        },
{
    match parse_api(source) {
        None => Err("the API source is not valid Rust".to_owned()),
        Some(items) => api_model(&items, native),
    }
}

/// Names in strictly increasing order: sorted, and none twice.
pub open spec fn strictly_sorted(s: Seq<Seq<char>>) -> bool {
    forall|i: int, j: int| 0 <= i < j < s.len() ==> text_lt(#[trigger] s[i], #[trigger] s[j])
}

proof fn lemma_name_insert_sorted(s: Seq<Seq<char>>, k: Seq<char>)
    requires
        strictly_sorted(s),
    ensures
        strictly_sorted(name_insert(s, k)),
        forall|x: Seq<char>| #[trigger] name_insert(s, k).contains(x) ==> x == k || s.contains(x),
    decreases s.len(),
{
    let r = name_insert(s, k);
    if s.len() == 0 {
    } else if text_lt(s[0], k) {
        let rest = s.drop_first();
        assert(strictly_sorted(rest)) by {
            assert forall|i: int, j: int| 0 <= i < j < rest.len() implies text_lt(
                #[trigger] rest[i],
                #[trigger] rest[j],
            ) by {
                assert(rest[i] == s[i + 1] && rest[j] == s[j + 1]);
            }
        }
        lemma_name_insert_sorted(rest, k);
        let t = name_insert(rest, k);
        assert(r == seq![s[0]] + t);
        assert forall|x: Seq<char>| #[trigger] r.contains(x) implies x == k || s.contains(x) by {
            let i = choose|i: int| 0 <= i < r.len() && r[i] == x;
            if i > 0 {
                assert(t.contains(x)) by {
                    assert(t[i - 1] == x);
                }
                if x != k {
                    let j = choose|j: int| 0 <= j < rest.len() && rest[j] == x;
                    assert(s[j + 1] == x);
                }
            } else {
                assert(s[0] == x);
            }
        }
        assert forall|i: int, j: int| 0 <= i < j < r.len() implies text_lt(#[trigger] r[i], #[trigger] r[j]) by {
            if i == 0 {
                assert(t.contains(r[j])) by {
                    assert(t[j - 1] == r[j]);
                }
                if r[j] != k {
                    let m = choose|m: int| 0 <= m < rest.len() && rest[m] == r[j];
                    assert(s[m + 1] == r[j]);
                    assert(text_lt(s[0], s[m + 1]));
                }
            } else {
                assert(r[i] == t[i - 1] && r[j] == t[j - 1]);
            }
        }
    } else if s[0] == k {
    } else {
        lemma_text_lt_total(s[0], k);
        assert(r == seq![k] + s);
        assert forall|x: Seq<char>| #[trigger] r.contains(x) implies x == k || s.contains(x) by {
            let i = choose|i: int| 0 <= i < r.len() && r[i] == x;
            if i > 0 {
                assert(s[i - 1] == x);
            }
        }
        assert forall|i: int, j: int| 0 <= i < j < r.len() implies text_lt(#[trigger] r[i], #[trigger] r[j]) by {
            if i == 0 {
                if j > 1 {
                    assert(text_lt(s[0], s[j - 1]));
                    lemma_text_lt_transitive(k, s[0], s[j - 1]);
                }
                assert(r[j] == s[j - 1]);
            } else {
                assert(r[i] == s[i - 1] && r[j] == s[j - 1]);
            }
        }
    }
}

proof fn lemma_record_names_insert(s: Seq<RecordText>, r: RecordText)
    ensures
        record_names(record_insert(s, r)) == name_insert(record_names(s), r.0),
    decreases s.len(),
{
    let names = record_names(s);
    if s.len() == 0 {
        assert(record_names(record_insert(s, r)) =~= seq![r.0]);
    } else {
        assert(names[0] == s[0].0);
        assert(names.drop_first() =~= record_names(s.drop_first()));
        if text_lt(s[0].0, r.0) {
            lemma_record_names_insert(s.drop_first(), r);
            assert(record_names(record_insert(s, r)) =~= seq![s[0].0] + record_names(
                record_insert(s.drop_first(), r),
            ));
        } else if s[0].0 == r.0 {
            assert(record_names(record_insert(s, r)) =~= names);
        } else {
            assert(record_names(record_insert(s, r)) =~= seq![r.0] + names);
        }
    }
}

/// The handles and the records of the API come out sorted by name, each name once, as an
/// ordered set and an ordered map keep them.
pub proof fn lemma_api_sorted(items: Seq<ApiItem>, native: bool, n: nat)
    requires
        n <= items.len(),
    ensures
        collected(items, native, n) matches Ok(c) ==> strictly_sorted(c.opaque) && strictly_sorted(
            record_names(c.records),
        ),
    decreases n,
{
    if n > 0 {
        lemma_api_sorted(items, native, (n - 1) as nat);
        if let Ok(c) = collected(items, native, (n - 1) as nat) {
            match items[n - 1] {
                ApiItem::Struct { name, fields, .. } => {
                    lemma_name_insert_sorted(c.opaque, name@);
                    lemma_name_insert_sorted(record_names(c.records), name@);
                    lemma_record_names_insert(
                        c.records,
                        (name@, fields@.map_values(|f: ApiField| field_text(f))),
                    );
                },
                _ => {},
            }
        }
    } else {
        assert(strictly_sorted(Seq::<Seq<char>>::empty()));
        assert(record_names(Seq::<RecordText>::empty()) =~= Seq::<Seq<char>>::empty());
    }
}

} // verus!
