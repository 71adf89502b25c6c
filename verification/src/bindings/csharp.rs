//! Names for the C# binding.
use vstd::prelude::*;

use super::wrappers::{base, strip_all, amp, mut_word};
use super::{is_uppercase, same_text, to_lowercase, to_uppercase, unicode_is_uppercase, unicode_lower, unicode_upper};
use super::cpp::{first_arg, instance_spec, is_instance, receiver_count};
use super::schema::{contains_name, named};
use super::sig::{
    concat, joined, lemma_concat_step, lower_text, push_joined, unicode_lower_text, views, FnSig,
    Record,
};
use super::cpp::name_bytes;
use super::schema::starts_with;
use crate::text::{push_char, push_str};
use vstd::string::StrSliceExecFns;

verus! {

/// Every `_`-separated part of `s` is nonempty: `s` is nonempty and has no leading,
/// trailing or doubled underscore.
pub open spec fn parts_nonempty(s: Seq<char>) -> bool {
    &&& s.len() > 0
    &&& s[0] != '_'
    &&& s[s.len() - 1] != '_'
    &&& forall|i: int| 0 < i < s.len() ==> !(s[i] == '_' && #[trigger] s[i - 1] == '_')
}

/// `PascalCase` of a `snake_case` name: underscores dropped, and the first character and
/// each one after an underscore upper-cased.
pub open spec fn pascal_piece(s: Seq<char>, i: int) -> Seq<char> {
    if s[i] == '_' {
        Seq::empty()
    } else if i == 0 || s[i - 1] == '_' {
        unicode_upper(s[i])
    } else {
        seq![s[i]]
    }
}

pub open spec fn pascal_spec(s: Seq<char>) -> Seq<char>
    decreases s.len(),
{
    if s.len() == 0 {
        Seq::empty()
    } else {
        pascal_spec(s.drop_last()) + pascal_piece(s, s.len() - 1)
    }
}

/// Needs every part nonempty.
pub fn pascal(s: &str) -> (r: String)
    requires
        parts_nonempty(s@),
    ensures
        r@ == pascal_spec(s@),
{
    let n = s.unicode_len();
    let mut r = String::new();
    let mut i: usize = 0;
    while i < n
        invariant
            n == s@.len(),
            i <= n,
            r@ == pascal_spec(s@.take(i as int)),
        decreases n - i,
    {
        let c = s.get_char(i);
        let ghost t = s@.take(i + 1);
        proof {
            assert(t.drop_last() =~= s@.take(i as int));
            assert(t[i as int] == c);
            if i > 0 {
                assert(t[i - 1] == s@[i - 1]);
            }
        }
        if c == '_' {
        } else if i == 0 || s.get_char(i - 1) == '_' {
            let u = to_uppercase(c);
            push_str(&mut r, u.as_str());
        } else {
            push_char(&mut r, c);
        }
        i = i + 1;
        assert(r@ =~= pascal_spec(s@.take(i as int)));
    }
    assert(s@.take(n as int) =~= s@);
    r
}

/// `snake_case` of a `PascalCase` name: an underscore before each upper-case character but
/// the first, and every character lowered.
pub open spec fn snake_spec(s: Seq<char>) -> Seq<char>
    decreases s.len(),
{
    if s.len() == 0 {
        Seq::empty()
    } else {
        let i = s.len() - 1;
        snake_spec(s.drop_last()) + (if i > 0 && unicode_is_uppercase(s[i]) {
            seq!['_']
        } else {
            Seq::empty()
        }) + unicode_lower(s[i])
    }
}

pub fn snake(s: &str) -> (r: String)
    ensures
        r@ == snake_spec(s@),
{
    let n = s.unicode_len();
    let mut r = String::new();
    let mut i: usize = 0;
    while i < n
        invariant
            n == s@.len(),
            i <= n,
            r@ == snake_spec(s@.take(i as int)),
        decreases n - i,
    {
        let c = s.get_char(i);
        if i > 0 && is_uppercase(c) {
            proof {
                reveal_strlit("_");
            }
            push_str(&mut r, "_");
        }
        let l = to_lowercase(c);
        push_str(&mut r, l.as_str());
        proof {
            let t = s@.take(i + 1);
            assert(t.drop_last() =~= s@.take(i as int));
            assert(t[i as int] == c);
        }
        i = i + 1;
        assert(r@ =~= snake_spec(s@.take(i as int)));
    }
    assert(s@.take(n as int) =~= s@);
    r
}

/// A Rust type's name in C#.
pub open spec fn ty_spec(s: Seq<char>) -> Seq<char> {
    if s == "()"@ {
        "void"@
    } else if s == "u8"@ {
        "byte"@
    } else if s == "u32"@ {
        "uint"@
    } else if s == "u64"@ {
        "ulong"@
    } else if s == "i32"@ {
        "int"@
    } else if s == "i64"@ {
        "long"@
    } else if s == "f64"@ {
        "double"@
    } else if s == "&str"@ || s == "String"@ {
        "string"@
    } else if s == "&[u8]"@ {
        "ReadOnlySpan<byte>"@
    } else if s == "Vec<u8>"@ {
        "byte[]"@
    } else {
        strip_all(strip_all(s, amp()), mut_word())
    }
}

pub fn ty(s: &str) -> (r: String)
    ensures
        r@ == ty_spec(s@),
{
    if same_text(s, "()") {
        "void".to_owned()
    } else if same_text(s, "u8") {
        "byte".to_owned()
    } else if same_text(s, "u32") {
        "uint".to_owned()
    } else if same_text(s, "u64") {
        "ulong".to_owned()
    } else if same_text(s, "i32") {
        "int".to_owned()
    } else if same_text(s, "i64") {
        "long".to_owned()
    } else if same_text(s, "f64") {
        "double".to_owned()
    } else if same_text(s, "&str") || same_text(s, "String") {
        "string".to_owned()
    } else if same_text(s, "&[u8]") {
        "ReadOnlySpan<byte>".to_owned()
    } else if same_text(s, "Vec<u8>") {
        "byte[]".to_owned()
    } else {
        base(s).to_owned()
    }
}


/// The prefix of the functions an opaque type owns in the C# binding: its `snake_case`
/// name (lowered by Unicode) and `_`.
pub open spec fn cs_owner_prefix(owner: Seq<char>) -> Seq<char> {
    snake_spec(owner) + seq!['_']
}

/// Whether the `i`-th opaque type owns the function `name`.
pub open spec fn cs_owns(opaque: Seq<String>, i: int, name: Seq<char>) -> bool {
    cs_owner_prefix(opaque[i]@).is_prefix_of(name)
}

/// The owner among the first `n` opaque types, as `owner_of` scans them: a later type
/// whose prefix fits replaces the best so far when its name is at least as long.
pub open spec fn cs_best_owner(opaque: Seq<String>, name: Seq<char>, n: nat) -> Option<int>
    decreases n,
{
    if n == 0 {
        None
    } else {
        let prev = cs_best_owner(opaque, name, (n - 1) as nat);
        if cs_owns(opaque, n - 1, name) && (prev is None || name_bytes(opaque[n - 1]@) >= name_bytes(
            opaque[prev->0]@,
        )) {
            Some(n - 1)
        } else {
            prev
        }
    }
}

/// The opaque type that owns the function `name`: among those whose prefix starts the
/// name, the one with the longest name in bytes, the last of equals; none when no prefix
/// fits.
fn cs_owner_of(name: &str, opaque: &[String]) -> (r: Option<usize>)
    ensures
        r is None <==> forall|i: int| 0 <= i < opaque@.len() ==> !cs_owns(opaque@, i, name@),
        match r {
            Some(k) => cs_best_owner(opaque@, name@, opaque@.len()) == Some(k as int),
            None => cs_best_owner(opaque@, name@, opaque@.len()) is None,
        },
        r matches Some(k) ==> {
            &&& k < opaque@.len()
            &&& cs_owns(opaque@, k as int, name@)
            &&& forall|j: int|
                0 <= j < opaque@.len() && cs_owns(opaque@, j, name@) ==> name_bytes(opaque@[j]@)
                    <= name_bytes(opaque@[k as int]@)
            &&& forall|j: int|
                k < j < opaque@.len() && cs_owns(opaque@, j, name@) ==> name_bytes(opaque@[j]@)
                    < name_bytes(opaque@[k as int]@)
        },
{
    let mut best: Option<usize> = None;
    let mut best_len: usize = 0;
    let mut i: usize = 0;
    while i < opaque.len()
        invariant
            i <= opaque@.len(),
            best is None <==> forall|j: int| 0 <= j < i ==> !cs_owns(opaque@, j, name@),
            match best {
                Some(k) => cs_best_owner(opaque@, name@, i as nat) == Some(k as int),
                None => cs_best_owner(opaque@, name@, i as nat) is None,
            },
            best matches Some(k) ==> {
                &&& k < i
                &&& cs_owns(opaque@, k as int, name@)
                &&& best_len == name_bytes(opaque@[k as int]@)
                &&& forall|j: int|
                    0 <= j < i && cs_owns(opaque@, j, name@) ==> name_bytes(opaque@[j]@) <= best_len
                &&& forall|j: int|
                    k < j < i && cs_owns(opaque@, j, name@) ==> name_bytes(opaque@[j]@) < best_len
            },
        decreases opaque@.len() - i,
    {
        let t = opaque[i].as_str();
        let mut prefix = snake(t);
        push_str(&mut prefix, "_");
        proof {
            reveal_strlit("_");
            assert(prefix@ =~= cs_owner_prefix(opaque@[i as int]@));
        }
        let fits = starts_with(name, prefix.as_str());
        assert(fits == cs_owns(opaque@, i as int, name@));
        if fits {
            let len = t.len();
            let better = match best {
                None => true,
                Some(_) => len >= best_len,
            };
            if better {
                best = Some(i);
                best_len = len;
            }
        }
        i = i + 1;
    }
    best
}


pub(crate) proof fn lemma_cs_best_owner(opaque: Seq<String>, name: Seq<char>, n: nat)
    requires
        n <= opaque.len(),
    ensures
        cs_best_owner(opaque, name, n) matches Some(j) ==> 0 <= j < n && cs_owns(opaque, j, name),
    decreases n,
{
    if n > 0 {
        lemma_cs_best_owner(opaque, name, (n - 1) as nat);
    }
}

/// The owning handle of every function, or none when some function has none.
pub(crate) fn cs_owners_of(opaque: &Vec<String>, fns: &Vec<FnSig>) -> (r: Option<Vec<usize>>)
    ensures
        r is Some <==> forall|j: int|
            0 <= j < fns@.len() ==> #[trigger] cs_best_owner(opaque@, fns@[j].name@, opaque@.len())
                is Some,
        r matches Some(v) ==> v@.len() == fns@.len() && forall|j: int|
            0 <= j < fns@.len() ==> cs_best_owner(opaque@, fns@[j].name@, opaque@.len()) == Some(
                #[trigger] v@[j] as int,
            ),
{
    let mut v: Vec<usize> = Vec::new();
    let mut j: usize = 0;
    while j < fns.len()
        invariant
            j <= fns@.len(),
            v@.len() == j,
            forall|i: int|
                0 <= i < j ==> cs_best_owner(opaque@, fns@[i].name@, opaque@.len()) == Some(
                    #[trigger] v@[i] as int,
                ),
        decreases fns@.len() - j,
    {
        match cs_owner_of(fns[j].name.as_str(), opaque.as_slice()) {
            Some(k) => v.push(k),
            None => return None,
        }
        j = j + 1;
    }
    assert forall|j: int| 0 <= j < fns@.len() implies #[trigger] cs_best_owner(
        opaque@,
        fns@[j].name@,
        opaque@.len(),
    ) is Some by {
        assert(cs_best_owner(opaque@, fns@[j].name@, opaque@.len()) == Some(v@[j] as int));
    }
    Some(v)
}


/// Whether the `k`-th opaque type owns `f` (compared by name).
pub open spec fn cs_owned_by(opaque: Seq<String>, f: FnSig, k: int) -> bool {
    cs_best_owner(opaque, f.name@, opaque.len()) matches Some(j) && opaque[j]@ == opaque[k]@
}

/// Every function has an owning handle, or there is no handle to generate.
pub open spec fn cs_all_owned(opaque: Seq<String>, fns: Seq<FnSig>) -> bool {
    opaque.len() == 0 || forall|j: int|
        0 <= j < fns.len() ==> #[trigger] cs_best_owner(opaque, fns[j].name@, opaque.len()) is Some
}


/// The text every C# source starts with.
pub const CS_PRELUDE: &'static str = "// Generated from src/api.rs. Do not edit.\n#nullable enable\nusing System;\nusing System.Text;\nusing Microsoft.Win32.SafeHandles;\nusing Sys = Ethersync.Sys;\nnamespace Ethersync;\n";

/// The formatted timecode property of the `Reading` record.
pub const CS_TIMECODE: &'static str = "public string Timecode => $\"{Hours:D2}:{Minutes:D2}:{Seconds:D2}{(DropFrame ? ';' : ':')}{Frame:D2}\";\n";

/// The nested lists, one after another.
pub open spec fn flatten(parts: Seq<Seq<Seq<char>>>) -> Seq<Seq<char>>
    decreases parts.len(),
{
    if parts.len() == 0 {
        Seq::empty()
    } else {
        flatten(parts.drop_last()) + parts.last()
    }
}

pub proof fn lemma_flatten_step(parts: Seq<Seq<Seq<char>>>, k: int)
    requires
        0 <= k < parts.len(),
    ensures
        flatten(parts.take(k + 1)) == flatten(parts.take(k)) + parts[k],
{
    assert(parts.take(k + 1).drop_last() =~= parts.take(k));
}

/// Whether a record is named `t`.
pub open spec fn record_named(records: Seq<Record>, t: Seq<char>) -> bool {
    exists|i: int| 0 <= i < records.len() && (#[trigger] records[i]).0@ == t
}

pub(crate) fn has_record(records: &Vec<Record>, t: &str) -> (r: bool)
    ensures
        r == record_named(records@, t@),
{
    let mut i: usize = 0;
    while i < records.len()
        invariant
            i <= records@.len(),
            forall|j: int| 0 <= j < i ==> (#[trigger] records@[j]).0@ != t@,
        decreases records@.len() - i,
    {
        if same_text(records[i].0.as_str(), t) {
            return true;
        }
        i = i + 1;
    }
    false
}

/// A name C# can take as a camel-cased parameter: its `PascalCase` form exists and starts
/// with a one-byte character.
pub open spec fn cs_name_ok(n: Seq<char>) -> bool {
    parts_nonempty(n) && pascal_spec(n).len() > 0 && (pascal_spec(n)[0] as u32) < 0x80
}

/// The C# parameter name of an argument: its `PascalCase` form with the first character
/// lowered.
pub open spec fn cs_arg_name(n: Seq<char>) -> Seq<char> {
    unicode_lower_text(pascal_spec(n).take(1)) + pascal_spec(n).skip(1)
}

fn cs_arg_name_of(n: &str) -> (r: String)
    requires
        cs_name_ok(n@),
    ensures
        r@ == cs_arg_name(n@),
{
    let p = pascal(n);
    let len = p.unicode_len();
    let first = p.as_str().substring_char(0, 1);
    let mut r = lower_text(first);
    push_str(&mut r, p.as_str().substring_char(1, len));
    assert(r@ =~= cs_arg_name(n@));
    r
}

/// The name of `f` after its owner's prefix.
pub open spec fn stripped(name: Seq<char>, owner: Seq<char>) -> Seq<char> {
    name.skip(cs_owner_prefix(owner).len() as int)
}

/// Whether `f` becomes a constructor of `owner`.
pub open spec fn cs_constructor(name: Seq<char>, owner: Seq<char>) -> bool {
    stripped(name, owner) == "new"@ || (owner == "FollowerOptions"@ && stripped(name, owner)
        == "endpoint"@)
}

/// The method name `f` takes in `owner` before `PascalCase`.
pub open spec fn cs_method(name: Seq<char>, owner: Seq<char>) -> Seq<char> {
    if stripped(name, owner) == "bind_endpoint"@ {
        "bind"@
    } else {
        stripped(name, owner)
    }
}

pub open spec fn cs_instance(f: FnSig, owner: Seq<char>) -> bool {
    instance_spec(first_arg(f), owner)
}

/// The statements the method runs for its `i`-th argument before the call.
pub open spec fn cs_stmt(opaque: Seq<String>, f: FnSig, owner: Seq<char>, i: int) -> Seq<char> {
    let n = cs_arg_name(f.args@[i].0@);
    let t = f.args@[i].1@;
    let recv = cs_instance(f, owner) && i == 0;
    if named(opaque, strip_all(strip_all(t, amp()), mut_word())) {
        (if recv {
            Seq::empty()
        } else {
            "ArgumentNullException.ThrowIfNull(@"@ + n + ");\n"@
        }) + "using var lease_"@ + n + " = new HandleLease("@ + (if recv {
            "Handle"@
        } else {
            "@"@ + n + ".Handle"@
        }) + ");\n"@
    } else if t == "&str"@ {
        "ArgumentNullException.ThrowIfNull(@"@ + n + ");\nvar bytes_"@ + n + "=Encoding.UTF8.GetBytes(@"@
            + n + ");\n"@
    } else {
        Seq::empty()
    }
}

/// The buffer a string or byte argument is pinned from.
pub open spec fn cs_buffer(n: Seq<char>, t: Seq<char>) -> Seq<char> {
    if t == "&str"@ {
        "bytes_"@ + n
    } else {
        "@"@ + n
    }
}

/// The native arguments for the `i`-th argument.
pub open spec fn cs_calls(opaque: Seq<String>, f: FnSig, i: int) -> Seq<Seq<char>> {
    let n = cs_arg_name(f.args@[i].0@);
    let t = f.args@[i].1@;
    if named(opaque, strip_all(strip_all(t, amp()), mut_word())) {
        seq!["(Sys."@ + strip_all(strip_all(t, amp()), mut_word()) + "*)lease_"@ + n + ".Pointer"@]
    } else if t == "&str"@ || t == "&[u8]"@ {
        seq!["ptr_"@ + n, "(nuint)"@ + cs_buffer(n, t) + ".Length"@]
    } else {
        seq!["@"@ + n]
    }
}

/// The `fixed` statement the `i`-th argument needs, if any.
pub open spec fn cs_pin(opaque: Seq<String>, f: FnSig, i: int) -> Seq<Seq<char>> {
    let n = cs_arg_name(f.args@[i].0@);
    let t = f.args@[i].1@;
    if !named(opaque, strip_all(strip_all(t, amp()), mut_word())) && (t == "&str"@ || t == "&[u8]"@) {
        seq!["fixed(byte* ptr_"@ + n + "="@ + cs_buffer(n, t) + ")"@]
    } else {
        Seq::empty()
    }
}

/// The native type of the value `f` returns.
pub open spec fn cs_rt(opaque: Seq<String>, records: Seq<Record>, t: Seq<char>) -> Seq<char> {
    if named(opaque, t) {
        "Sys."@ + t + "*"@
    } else if record_named(records, t) {
        "Sys."@ + t
    } else if t == "String"@ || t == "Vec<u8>"@ {
        "Sys.EsBuffer*"@
    } else {
        ty_spec(t)
    }
}

#[verifier::opaque]
pub open spec fn cs_head(f: FnSig, owner: Seq<char>) -> Seq<char> {
    let k = receiver_count(cs_instance(f, owner));
    let decl = joined(
        Seq::new(
            (f.args@.len() - k) as nat,
            |i: int| ty_spec(f.args@[i + k].1@) + " @"@ + cs_arg_name(f.args@[i + k].0@),
        ),
        ", "@,
    );
    if cs_constructor(f.name@, owner) {
        "public "@ + owner + "("@ + decl + ") {\n"@
    } else {
        "public "@ + (if cs_instance(f, owner) {
            Seq::empty()
        } else {
            "static "@
        }) + ty_spec(f.ret@) + " "@ + pascal_spec(cs_method(f.name@, owner)) + "("@ + decl
            + ") {\n"@
    }
}

#[verifier::opaque]
pub open spec fn cs_tail(opaque: Seq<String>, records: Seq<Record>, f: FnSig, owner: Seq<char>) -> Seq<char> {
    if cs_constructor(f.name@, owner) {
        "Handle=new "@ + owner + "Handle(value);\n"@
    } else if f.ret@ != "()"@ {
        "return "@ + (if named(opaque, f.ret@) || record_named(records, f.ret@) {
            "new "@ + f.ret@ + "(value)"@
        } else if f.ret@ == "String"@ {
            "Native.TakeString(value)"@
        } else if f.ret@ == "Vec<u8>"@ {
            "Native.TakeBytes(value)"@
        } else {
            "value"@
        }) + ";\n"@
    } else {
        Seq::empty()
    }
}

/// The native arguments of all of `f`'s arguments.
#[verifier::opaque]
pub open spec fn cs_arg_calls(opaque: Seq<String>, f: FnSig) -> Seq<Seq<char>> {
    flatten(Seq::new(f.args@.len(), |i: int| cs_calls(opaque, f, i)))
}

/// The `fixed` statements of all of `f`'s arguments.
#[verifier::opaque]
pub open spec fn cs_pins(opaque: Seq<String>, f: FnSig) -> Seq<Seq<char>> {
    flatten(Seq::new(f.args@.len(), |i: int| cs_pin(opaque, f, i)))
}

/// The statements for all of `f`'s arguments.
#[verifier::opaque]
pub open spec fn cs_stmts(opaque: Seq<String>, f: FnSig, owner: Seq<char>) -> Seq<char> {
    concat(Seq::new(f.args@.len(), |i: int| cs_stmt(opaque, f, owner, i)))
}

/// Each `fixed` statement opening its block.
#[verifier::opaque]
pub open spec fn cs_open_pins(pins: Seq<Seq<char>>) -> Seq<char> {
    concat(Seq::new(pins.len(), |i: int| pins[i] + " {\n"@))
}

/// The closing of `n` blocks.
#[verifier::opaque]
pub open spec fn cs_close(n: nat) -> Seq<char> {
    concat(Seq::new(n, |i: int| "}\n"@))
}

/// The local receiving `f`'s value, if any.
#[verifier::opaque]
pub open spec fn cs_value(opaque: Seq<String>, records: Seq<Record>, f: FnSig) -> Seq<char> {
    if f.ret@ == "()"@ {
        Seq::empty()
    } else {
        cs_rt(opaque, records, f.ret@) + " value=default;\n"@
    }
}

/// The method `f` becomes in the class of `owner`.
#[verifier::opaque]
pub open spec fn cs_function(opaque: Seq<String>, records: Seq<Record>, f: FnSig, owner: Seq<char>) -> Seq<char> {
    let calls = cs_arg_calls(opaque, f) + (if f.ret@ == "()"@ {
        Seq::empty()
    } else {
        seq!["&value"@]
    }) + seq!["&error"@];
    let pins = cs_pins(opaque, f);
    cs_head(f, owner) + cs_stmts(opaque, f, owner) + cs_value(opaque, records, f)
        + "Sys.EsBuffer* error=null;\n"@ + cs_open_pins(pins)
        + "Native.Check(Sys.NativeMethods.ethersync_"@ + f.name@ + "("@ + joined(calls, ","@)
        + "),error);\n"@ + cs_close(pins.len()) + cs_tail(opaque, records, f, owner) + "}\n"@
}

/// The property of field `n` of type `t` of record `record`.
pub open spec fn cs_field(record: Seq<char>, n: Seq<char>, t: Seq<char>) -> Seq<char> {
    let kind: Option<Seq<char>> = if record == "Reading"@ && n == "connection"@ {
        Some("ConnectionState"@)
    } else if record == "Reading"@ && n == "synchronization"@ {
        Some("Synchronization"@)
    } else if record == "Reading"@ && n == "source_kind"@ {
        Some("SourceKind"@)
    } else if record == "Reading"@ && n == "source_health"@ {
        Some("SourceHealth"@)
    } else {
        None
    };
    "public "@ + (match kind {
        Some(k) => k,
        None => ty_spec(t),
    }) + " "@ + pascal_spec(n) + " => "@ + (match kind {
        Some(k) => "("@ + k + ")"@,
        None => Seq::empty(),
    }) + "raw.@"@ + n + ";\n"@
}

#[verifier::opaque]
pub open spec fn cs_record(r: Record) -> Seq<char> {
    let name = r.0@;
    "public readonly struct "@ + name + " { private readonly Sys."@ + name + " raw; internal "@ + name
        + "(Sys."@ + name + " value) { raw=value; }\n"@ + concat(
        Seq::new(r.1@.len(), |i: int| cs_field(name, r.1@[i].0@, r.1@[i].1@)),
    ) + (if name == "Reading"@ {
        CS_TIMECODE@
    } else {
        Seq::empty()
    }) + "}\n"@
}

#[verifier::opaque]
pub open spec fn cs_class_head(name: Seq<char>) -> Seq<char> {
    "internal sealed unsafe class "@ + name + "Handle : OwnedHandle { internal "@ + name
        + "Handle(Sys."@ + name
        + "* value):base() {SetHandle((IntPtr)value);} protected override bool ReleaseHandle() {Sys.NativeMethods.ethersync_"@
        + unicode_lower_text(name) + "_free((Sys."@ + name + "*)handle);return true;} }\n"@
        + "public sealed unsafe partial class "@ + name + " : IDisposable { internal readonly "@
        + name + "Handle Handle; internal "@ + name + "(Sys."@ + name + "* value) {Handle=new "@
        + name + "Handle(value);} public void Dispose() => Handle.Dispose();\n"@
}

/// The class of the `k`-th handle type with the methods it owns.
pub open spec fn cs_class(opaque: Seq<String>, records: Seq<Record>, fns: Seq<FnSig>, k: int) -> Seq<char> {
    cs_class_head(opaque[k]@) + concat(
        Seq::new(
            fns.len(),
            |j: int|
                if cs_owned_by(opaque, fns[j], k) {
                    cs_function(opaque, records, fns[j], opaque[k]@)
                } else {
                    Seq::empty()
                },
        ),
    ) + "}\n"@
}

/// The names C# needs to convert are usable: the fields' and, of every function that a
/// handle owns, its arguments' and its method's.
pub open spec fn cs_names_ok(opaque: Seq<String>, records: Seq<Record>, fns: Seq<FnSig>) -> bool {
    &&& forall|i: int, j: int|
        0 <= i < records.len() && 0 <= j < records[i].1@.len() ==> parts_nonempty(
            #[trigger] records[i].1@[j].0@,
        )
    &&& forall|j: int|
        0 <= j < fns.len() ==> (#[trigger] cs_best_owner(opaque, fns[j].name@, opaque.len()) matches Some(
            w,
        ) ==> (forall|i: int|
            0 <= i < fns[j].args@.len() ==> cs_name_ok(#[trigger] fns[j].args@[i].0@)) && (
        !cs_constructor(fns[j].name@, opaque[w]@) ==> parts_nonempty(
            cs_method(fns[j].name@, opaque[w]@),
        )))
}

/// The C# source (`Ethersync.g.cs`): a struct per record and a class per handle type, in
/// the order given.
pub open spec fn csharp_spec(opaque: Seq<String>, records: Seq<Record>, fns: Seq<FnSig>) -> Seq<char> {
    CS_PRELUDE@ + concat(Seq::new(records.len(), |k: int| cs_record(records[k]))) + concat(
        Seq::new(opaque.len(), |k: int| cs_class(opaque, records, fns, k)),
    )
}

fn cs_field_of(record: &str, n: &str, t: &str) -> (r: String)
    requires
        parts_nonempty(n@),
    ensures
        r@ == cs_field(record@, n@, t@),
{
    let reading = same_text(record, "Reading");
    let kind: Option<&str> = if reading && same_text(n, "connection") {
        Some("ConnectionState")
    } else if reading && same_text(n, "synchronization") {
        Some("Synchronization")
    } else if reading && same_text(n, "source_kind") {
        Some("SourceKind")
    } else if reading && same_text(n, "source_health") {
        Some("SourceHealth")
    } else {
        None
    };
    let mut r = "public ".to_owned();
    match kind {
        Some(k) => push_str(&mut r, k),
        None => {
            let tt = ty(t);
            push_str(&mut r, tt.as_str());
        },
    }
    push_str(&mut r, " ");
    let p = pascal(n);
    push_str(&mut r, p.as_str());
    push_str(&mut r, " => ");
    match kind {
        Some(k) => {
            push_str(&mut r, "(");
            push_str(&mut r, k);
            push_str(&mut r, ")");
        },
        None => {},
    }
    push_str(&mut r, "raw.@");
    push_str(&mut r, n);
    push_str(&mut r, ";\n");
    assert(r@ =~= cs_field(record@, n@, t@));
    r
}

fn push_cs_record(s: &mut String, rec: &Record)
    requires
        forall|j: int| 0 <= j < rec.1@.len() ==> parts_nonempty(#[trigger] rec.1@[j].0@),
    ensures
        final(s)@ == old(s)@ + cs_record(*rec),
{
    proof {
        reveal(cs_record);
    }
    let ghost start = s@;
    let name = rec.0.as_str();
    push_str(s, "public readonly struct ");
    push_str(s, name);
    push_str(s, " { private readonly Sys.");
    push_str(s, name);
    push_str(s, " raw; internal ");
    push_str(s, name);
    push_str(s, "(Sys.");
    push_str(s, name);
    push_str(s, " value) { raw=value; }\n");
    let ghost s1 = s@;
    let ghost p = Seq::new(rec.1@.len(), |i: int| cs_field(name@, rec.1@[i].0@, rec.1@[i].1@));
    let mut i: usize = 0;
    assert(p.take(0) =~= Seq::<Seq<char>>::empty());
    while i < rec.1.len()
        invariant
            i <= rec.1@.len(),
            name@ == rec.0@,
            forall|j: int| 0 <= j < rec.1@.len() ==> parts_nonempty(#[trigger] rec.1@[j].0@),
            p == Seq::new(rec.1@.len(), |i: int| cs_field(name@, rec.1@[i].0@, rec.1@[i].1@)),
            s@ == s1 + concat(p.take(i as int)),
        decreases rec.1@.len() - i,
    {
        proof {
            lemma_concat_step(p, i as int);
        }
        let f = cs_field_of(name, rec.1[i].0.as_str(), rec.1[i].1.as_str());
        push_str(s, f.as_str());
        i = i + 1;
    }
    assert(p.take(i as int) =~= p);
    if same_text(name, "Reading") {
        push_str(s, CS_TIMECODE);
    }
    push_str(s, "}\n");
    assert(s@ =~= start + cs_record(*rec));
}

fn push_cs_class_head(s: &mut String, name: &str)
    ensures
        final(s)@ == old(s)@ + cs_class_head(name@),
{
    proof {
        reveal(cs_class_head);
    }
    let ghost start = s@;
    push_str(s, "internal sealed unsafe class ");
    push_str(s, name);
    push_str(s, "Handle : OwnedHandle { internal ");
    push_str(s, name);
    push_str(s, "Handle(Sys.");
    push_str(s, name);
    push_str(
        s,
        "* value):base() {SetHandle((IntPtr)value);} protected override bool ReleaseHandle() {Sys.NativeMethods.ethersync_",
    );
    let lower = lower_text(name);
    push_str(s, lower.as_str());
    push_str(s, "_free((Sys.");
    push_str(s, name);
    push_str(s, "*)handle);return true;} }\n");
    push_str(s, "public sealed unsafe partial class ");
    push_str(s, name);
    push_str(s, " : IDisposable { internal readonly ");
    push_str(s, name);
    push_str(s, "Handle Handle; internal ");
    push_str(s, name);
    push_str(s, "(Sys.");
    push_str(s, name);
    push_str(s, "* value) {Handle=new ");
    push_str(s, name);
    push_str(s, "Handle(value);} public void Dispose() => Handle.Dispose();\n");
    assert(s@ =~= start + cs_class_head(name@));
}

fn push_cs_head(s: &mut String, f: &FnSig, owner: &str, instance: bool, ctor: bool, method: &str)
    requires
        instance == cs_instance(*f, owner@),
        ctor == cs_constructor(f.name@, owner@),
        method@ == cs_method(f.name@, owner@),
        forall|i: int| 0 <= i < f.args@.len() ==> cs_name_ok(#[trigger] f.args@[i].0@),
        !ctor ==> parts_nonempty(method@),
    ensures
        final(s)@ == old(s)@ + cs_head(*f, owner@),
{
    proof {
        reveal(cs_head);
    }
    let ghost start = s@;
    let k: usize = if instance {
        1
    } else {
        0
    };
    let n = f.args.len();
    let mut parts: Vec<String> = Vec::new();
    let mut i: usize = k;
    while i < n
        invariant
            k <= i <= n,
            n == f.args@.len(),
            k == receiver_count(instance),
            forall|i: int| 0 <= i < f.args@.len() ==> cs_name_ok(#[trigger] f.args@[i].0@),
            parts@.len() == i - k,
            forall|j: int|
                0 <= j < i - k ==> (#[trigger] parts@[j])@ == ty_spec(f.args@[j + k].1@) + " @"@
                    + cs_arg_name(f.args@[j + k].0@),
        decreases n - i,
    {
        let mut p = ty(f.args[i].1.as_str());
        push_str(&mut p, " @");
        let a = cs_arg_name_of(f.args[i].0.as_str());
        push_str(&mut p, a.as_str());
        parts.push(p);
        i = i + 1;
    }
    assert(views(parts@) =~= Seq::new(
        (f.args@.len() - k) as nat,
        |i: int| ty_spec(f.args@[i + k].1@) + " @"@ + cs_arg_name(f.args@[i + k].0@),
    ));
    let mut decl = String::new();
    push_joined(&mut decl, &parts, ", ");
    if ctor {
        push_str(s, "public ");
        push_str(s, owner);
        push_str(s, "(");
        push_str(s, decl.as_str());
        push_str(s, ") {\n");
    } else {
        push_str(s, "public ");
        if !instance {
            push_str(s, "static ");
        }
        let rt = ty(f.ret.as_str());
        push_str(s, rt.as_str());
        push_str(s, " ");
        let m = pascal(method);
        push_str(s, m.as_str());
        push_str(s, "(");
        push_str(s, decl.as_str());
        push_str(s, ") {\n");
    }
    assert(s@ =~= start + cs_head(*f, owner@));
}

fn push_cs_tail(s: &mut String, opaque: &Vec<String>, records: &Vec<Record>, f: &FnSig, owner: &str, ctor: bool)
    requires
        ctor == cs_constructor(f.name@, owner@),
    ensures
        final(s)@ == old(s)@ + cs_tail(opaque@, records@, *f, owner@),
{
    proof {
        reveal(cs_tail);
    }
    let ghost start = s@;
    let ret = f.ret.as_str();
    if ctor {
        push_str(s, "Handle=new ");
        push_str(s, owner);
        push_str(s, "Handle(value);\n");
    } else if !same_text(ret, "()") {
        push_str(s, "return ");
        if contains_name(opaque.as_slice(), ret) || has_record(records, ret) {
            push_str(s, "new ");
            push_str(s, ret);
            push_str(s, "(value)");
        } else if same_text(ret, "String") {
            push_str(s, "Native.TakeString(value)");
        } else if same_text(ret, "Vec<u8>") {
            push_str(s, "Native.TakeBytes(value)");
        } else {
            push_str(s, "value");
        }
        push_str(s, ";\n");
    }
    assert(s@ =~= start + cs_tail(opaque@, records@, *f, owner@));
}

fn cs_stmt_of(opaque: &Vec<String>, f: &FnSig, owner: &str, instance: bool, i: usize, n: &str) -> (r: String)
    requires
        instance == cs_instance(*f, owner@),
        i < f.args@.len(),
        n@ == cs_arg_name(f.args@[i as int].0@),
    ensures
        r@ == cs_stmt(opaque@, *f, owner@, i as int),
{
    let t = f.args[i].1.as_str();
    let recv = instance && i == 0;
    let mut r = String::new();
    if contains_name(opaque.as_slice(), base(t)) {
        if !recv {
            push_str(&mut r, "ArgumentNullException.ThrowIfNull(@");
            push_str(&mut r, n);
            push_str(&mut r, ");\n");
        }
        push_str(&mut r, "using var lease_");
        push_str(&mut r, n);
        push_str(&mut r, " = new HandleLease(");
        if recv {
            push_str(&mut r, "Handle");
        } else {
            push_str(&mut r, "@");
            push_str(&mut r, n);
            push_str(&mut r, ".Handle");
        }
        push_str(&mut r, ");\n");
    } else if same_text(t, "&str") {
        push_str(&mut r, "ArgumentNullException.ThrowIfNull(@");
        push_str(&mut r, n);
        push_str(&mut r, ");\nvar bytes_");
        push_str(&mut r, n);
        push_str(&mut r, "=Encoding.UTF8.GetBytes(@");
        push_str(&mut r, n);
        push_str(&mut r, ");\n");
    }
    assert(r@ =~= cs_stmt(opaque@, *f, owner@, i as int));
    r
}

/// Appends the native arguments and the pinning of the `i`-th argument.
fn cs_calls_of(calls: &mut Vec<String>, pins: &mut Vec<String>, opaque: &Vec<String>, f: &FnSig, i: usize, n: &str)
    requires
        i < f.args@.len(),
        n@ == cs_arg_name(f.args@[i as int].0@),
    ensures
        views(final(calls)@) == views(old(calls)@) + cs_calls(opaque@, *f, i as int),
        views(final(pins)@) == views(old(pins)@) + cs_pin(opaque@, *f, i as int),
{
    let t = f.args[i].1.as_str();
    let b = base(t);
    let ghost c0 = views(calls@);
    let ghost p0 = views(pins@);
    if contains_name(opaque.as_slice(), b) {
        let mut c = "(Sys.".to_owned();
        push_str(&mut c, b);
        push_str(&mut c, "*)lease_");
        push_str(&mut c, n);
        push_str(&mut c, ".Pointer");
        calls.push(c);
    } else if same_text(t, "&str") || same_text(t, "&[u8]") {
        let mut buffer = String::new();
        if same_text(t, "&str") {
            push_str(&mut buffer, "bytes_");
            push_str(&mut buffer, n);
        } else {
            push_str(&mut buffer, "@");
            push_str(&mut buffer, n);
        }
        assert(buffer@ =~= cs_buffer(n@, t@));
        let mut pin = "fixed(byte* ptr_".to_owned();
        push_str(&mut pin, n);
        push_str(&mut pin, "=");
        push_str(&mut pin, buffer.as_str());
        push_str(&mut pin, ")");
        pins.push(pin);
        let mut c1 = "ptr_".to_owned();
        push_str(&mut c1, n);
        calls.push(c1);
        let mut c2 = "(nuint)".to_owned();
        push_str(&mut c2, buffer.as_str());
        push_str(&mut c2, ".Length");
        calls.push(c2);
    } else {
        let mut c = "@".to_owned();
        push_str(&mut c, n);
        calls.push(c);
    }
    assert(views(calls@) =~= c0 + cs_calls(opaque@, *f, i as int));
    assert(views(pins@) =~= p0 + cs_pin(opaque@, *f, i as int));
}

/// Pushes the statements of all of `f`'s arguments and collects their native arguments
/// and `fixed` statements.
fn cs_args(s: &mut String, opaque: &Vec<String>, f: &FnSig, owner: &str, instance: bool) -> (r: (
    Vec<String>,
    Vec<String>,
))
    requires
        instance == cs_instance(*f, owner@),
        forall|i: int| 0 <= i < f.args@.len() ==> cs_name_ok(#[trigger] f.args@[i].0@),
    ensures
        final(s)@ == old(s)@ + cs_stmts(opaque@, *f, owner@),
        views(r.0@) == cs_arg_calls(opaque@, *f),
        views(r.1@) == cs_pins(opaque@, *f),
{
    proof {
        reveal(cs_stmts);
        reveal(cs_arg_calls);
        reveal(cs_pins);
    }
    let n = f.args.len();
    let mut calls: Vec<String> = Vec::new();
    let mut pins: Vec<String> = Vec::new();
    let ghost pc = Seq::new(n as nat, |i: int| cs_calls(opaque@, *f, i));
    let ghost pp = Seq::new(n as nat, |i: int| cs_pin(opaque@, *f, i));
    let ghost ps = Seq::new(n as nat, |i: int| cs_stmt(opaque@, *f, owner@, i));
    let ghost s1 = s@;
    let mut i: usize = 0;
    assert(pc.take(0) =~= Seq::<Seq<Seq<char>>>::empty());
    assert(pp.take(0) =~= Seq::<Seq<Seq<char>>>::empty());
    assert(ps.take(0) =~= Seq::<Seq<char>>::empty());
    assert(views(calls@) =~= flatten(pc.take(0)));
    assert(views(pins@) =~= flatten(pp.take(0)));
    while i < n
        invariant
            i <= n,
            n == f.args@.len(),
            instance == cs_instance(*f, owner@),
            forall|i: int| 0 <= i < f.args@.len() ==> cs_name_ok(#[trigger] f.args@[i].0@),
            pc == Seq::new(n as nat, |i: int| cs_calls(opaque@, *f, i)),
            pp == Seq::new(n as nat, |i: int| cs_pin(opaque@, *f, i)),
            ps == Seq::new(n as nat, |i: int| cs_stmt(opaque@, *f, owner@, i)),
            views(calls@) == flatten(pc.take(i as int)),
            views(pins@) == flatten(pp.take(i as int)),
            s@ == s1 + concat(ps.take(i as int)),
        decreases n - i,
    {
        proof {
            lemma_flatten_step(pc, i as int);
            lemma_flatten_step(pp, i as int);
            lemma_concat_step(ps, i as int);
        }
        let a = cs_arg_name_of(f.args[i].0.as_str());
        let st = cs_stmt_of(opaque, f, owner, instance, i, a.as_str());
        push_str(s, st.as_str());
        cs_calls_of(&mut calls, &mut pins, opaque, f, i, a.as_str());
        i = i + 1;
    }
    assert(pc.take(i as int) =~= pc);
    assert(pp.take(i as int) =~= pp);
    assert(ps.take(i as int) =~= ps);
    (calls, pins)
}

fn push_value(s: &mut String, opaque: &Vec<String>, records: &Vec<Record>, f: &FnSig)
    ensures
        final(s)@ == old(s)@ + cs_value(opaque@, records@, *f),
{
    proof {
        reveal(cs_value);
    }
    let ghost start = s@;
    let ret = f.ret.as_str();
    if !same_text(ret, "()") {
        let rt = if contains_name(opaque.as_slice(), ret) {
            let mut x = "Sys.".to_owned();
            push_str(&mut x, ret);
            push_str(&mut x, "*");
            x
        } else if has_record(records, ret) {
            let mut x = "Sys.".to_owned();
            push_str(&mut x, ret);
            x
        } else if same_text(ret, "String") || same_text(ret, "Vec<u8>") {
            "Sys.EsBuffer*".to_owned()
        } else {
            ty(ret)
        };
        assert(rt@ =~= cs_rt(opaque@, records@, ret@));
        push_str(s, rt.as_str());
        push_str(s, " value=default;\n");
    }
    assert(s@ =~= start + cs_value(opaque@, records@, *f));
}

fn push_open_pins(s: &mut String, pins: &Vec<String>)
    ensures
        final(s)@ == old(s)@ + cs_open_pins(views(pins@)),
{
    proof {
        reveal(cs_open_pins);
    }
    let ghost s3 = s@;
    let ghost pv = views(pins@);
    let ghost po = Seq::new(pv.len(), |i: int| pv[i] + " {\n"@);
    let mut k: usize = 0;
    assert(po.take(0) =~= Seq::<Seq<char>>::empty());
    while k < pins.len()
        invariant
            k <= pv.len(),
            pv == views(pins@),
            po == Seq::new(pv.len(), |i: int| pv[i] + " {\n"@),
            s@ == s3 + concat(po.take(k as int)),
        decreases pv.len() - k,
    {
        proof {
            lemma_concat_step(po, k as int);
        }
        push_str(s, pins[k].as_str());
        push_str(s, " {\n");
        k = k + 1;
    }
    assert(po.take(k as int) =~= po);
}

fn push_close(s: &mut String, n: usize)
    ensures
        final(s)@ == old(s)@ + cs_close(n as nat),
{
    proof {
        reveal(cs_close);
    }
    let ghost s4 = s@;
    let ghost pe = Seq::new(n as nat, |i: int| "}\n"@);
    let mut k: usize = 0;
    assert(pe.take(0) =~= Seq::<Seq<char>>::empty());
    while k < n
        invariant
            k <= n,
            pe == Seq::new(n as nat, |i: int| "}\n"@),
            s@ == s4 + concat(pe.take(k as int)),
        decreases n - k,
    {
        proof {
            lemma_concat_step(pe, k as int);
        }
        push_str(s, "}\n");
        k = k + 1;
    }
    assert(pe.take(k as int) =~= pe);
}

fn push_cs_function(s: &mut String, opaque: &Vec<String>, records: &Vec<Record>, f: &FnSig, owner: &str)
    requires
        cs_owner_prefix(owner@).is_prefix_of(f.name@),
        forall|i: int| 0 <= i < f.args@.len() ==> cs_name_ok(#[trigger] f.args@[i].0@),
        !cs_constructor(f.name@, owner@) ==> parts_nonempty(cs_method(f.name@, owner@)),
    ensures
        final(s)@ == old(s)@ + cs_function(opaque@, records@, *f, owner@),
{
    proof {
        reveal(cs_function);
    }
    let ghost start = s@;
    let mut prefix = snake(owner);
    push_str(&mut prefix, "_");
    proof {
        reveal_strlit("_");
        assert(prefix@ =~= cs_owner_prefix(owner@));
    }
    let len = f.name.as_str().unicode_len();
    let stripped_name = f.name.as_str().substring_char(prefix.unicode_len(), len);
    assert(stripped_name@ =~= stripped(f.name@, owner@));
    let ctor = same_text(stripped_name, "new") || (same_text(owner, "FollowerOptions") && same_text(
        stripped_name,
        "endpoint",
    ));
    let method: &str = if same_text(stripped_name, "bind_endpoint") {
        "bind"
    } else {
        stripped_name
    };
    let first = if f.args.len() > 0 {
        Some(f.args[0].1.as_str())
    } else {
        None
    };
    let instance = is_instance(first, owner);
    push_cs_head(s, f, owner, instance, ctor, method);
    let (mut calls, pins) = cs_args(s, opaque, f, owner, instance);
    push_value(s, opaque, records, f);
    if !same_text(f.ret.as_str(), "()") {
        calls.push("&value".to_owned());
    }
    push_str(s, "Sys.EsBuffer* error=null;\n");
    calls.push("&error".to_owned());
    push_open_pins(s, &pins);
    push_str(s, "Native.Check(Sys.NativeMethods.ethersync_");
    push_str(s, f.name.as_str());
    push_str(s, "(");
    let ghost cv = views(calls@);
    push_joined(s, &calls, ",");
    push_str(s, "),error);\n");
    push_close(s, pins.len());
    push_cs_tail(s, opaque, records, f, owner, ctor);
    push_str(s, "}\n");
    assert(cv =~= cs_arg_calls(opaque@, *f) + (if f.ret@ == "()"@ {
        Seq::empty()
    } else {
        seq!["&value"@]
    }) + seq!["&error"@]);
    assert(s@ =~= start + cs_function(opaque@, records@, *f, owner@));
}

/// The C# source (`Ethersync.g.cs`) for the handles `opaque` and records `records`, in the
/// order given, and the API `functions`. Every function must have an owning handle when
/// there is any handle; otherwise it is refused.
pub fn csharp_source(opaque: &Vec<String>, records: &Vec<Record>, functions: &Vec<FnSig>) -> (r: Result<
    String,
    String,
>)
    requires
        cs_names_ok(opaque@, records@, functions@),
    ensures
        match r {
            Ok(s) => cs_all_owned(opaque@, functions@) && s@ == csharp_spec(opaque@, records@, functions@),
            Err(e) => !cs_all_owned(opaque@, functions@) && e@ == "API owner"@,
        },
{
    let owners = if opaque.len() > 0 {
        match cs_owners_of(opaque, functions) {
            Some(v) => v,
            None => return Err("API owner".to_owned()),
        }
    } else {
        Vec::new()
    };
    let ghost o = opaque@;
    let ghost rs = records@;
    let ghost fs = functions@;
    let mut s = CS_PRELUDE.to_owned();
    let ghost s0 = s@;
    let ghost p1 = Seq::new(rs.len(), |k: int| cs_record(rs[k]));
    let mut k: usize = 0;
    assert(p1.take(0) =~= Seq::<Seq<char>>::empty());
    while k < records.len()
        invariant
            k <= rs.len(),
            rs == records@,
            cs_names_ok(o, rs, fs),
            p1 == Seq::new(rs.len(), |k: int| cs_record(rs[k])),
            s@ == s0 + concat(p1.take(k as int)),
        decreases rs.len() - k,
    {
        proof {
            lemma_concat_step(p1, k as int);
        }
        push_cs_record(&mut s, &records[k]);
        k = k + 1;
    }
    assert(p1.take(k as int) =~= p1);
    let ghost s1 = s@;
    let ghost p2 = Seq::new(o.len(), |k: int| cs_class(o, rs, fs, k));
    let mut k: usize = 0;
    assert(p2.take(0) =~= Seq::<Seq<char>>::empty());
    while k < opaque.len()
        invariant
            k <= o.len(),
            o == opaque@,
            rs == records@,
            fs == functions@,
            cs_names_ok(o, rs, fs),
            o.len() > 0 ==> owners@.len() == fs.len() && forall|j: int|
                0 <= j < fs.len() ==> cs_best_owner(o, fs[j].name@, o.len()) == Some(
                    #[trigger] owners@[j] as int,
                ),
            p2 == Seq::new(o.len(), |k: int| cs_class(o, rs, fs, k)),
            s@ == s1 + concat(p2.take(k as int)),
        decreases o.len() - k,
    {
        proof {
            lemma_concat_step(p2, k as int);
        }
        let owner = opaque[k].as_str();
        let ghost sk = s@;
        push_cs_class_head(&mut s, owner);
        let ghost sh = s@;
        let ghost pf = Seq::new(
            fs.len(),
            |j: int|
                if cs_owned_by(o, fs[j], k as int) {
                    cs_function(o, rs, fs[j], o[k as int]@)
                } else {
                    Seq::empty()
                },
        );
        let mut j: usize = 0;
        assert(pf.take(0) =~= Seq::<Seq<char>>::empty());
        while j < functions.len()
            invariant
                j <= fs.len(),
                k < o.len(),
                o == opaque@,
                rs == records@,
                fs == functions@,
                cs_names_ok(o, rs, fs),
                owner@ == o[k as int]@,
                owners@.len() == fs.len(),
                forall|i: int|
                    0 <= i < fs.len() ==> cs_best_owner(o, fs[i].name@, o.len()) == Some(
                        #[trigger] owners@[i] as int,
                    ),
                pf == Seq::new(
                    fs.len(),
                    |j: int|
                        if cs_owned_by(o, fs[j], k as int) {
                            cs_function(o, rs, fs[j], o[k as int]@)
                        } else {
                            Seq::empty()
                        },
                ),
                s@ == sh + concat(pf.take(j as int)),
            decreases fs.len() - j,
        {
            proof {
                lemma_concat_step(pf, j as int);
            }
            let w = owners[j];
            proof {
                lemma_cs_best_owner(o, fs[j as int].name@, o.len());
            }
            if same_text(opaque[w].as_str(), owner) {
                proof {
                    assert(cs_best_owner(o, fs[j as int].name@, o.len()) == Some(w as int));
                    assert(o[w as int]@ == owner@);
                }
                push_cs_function(&mut s, opaque, records, &functions[j], owner);
            }
            j = j + 1;
        }
        assert(pf.take(j as int) =~= pf);
        push_str(&mut s, "}\n");
        assert(s@ =~= sk + cs_class(o, rs, fs, k as int));
        k = k + 1;
    }
    assert(p2.take(k as int) =~= p2);
    Ok(s)
}

} // verus!

verus! {

/// Whether every `_`-separated part of `s` is nonempty.
pub fn parts_nonempty_of(s: &str) -> (r: bool)
    ensures
        r == parts_nonempty(s@),
{
    let n = s.unicode_len();
    if n == 0 || s.get_char(0) == '_' || s.get_char(n - 1) == '_' {
        return false;
    }
    let mut i: usize = 1;
    while i < n
        invariant
            1 <= i <= n,
            n == s@.len(),
            forall|k: int| 0 < k < i ==> !(s@[k] == '_' && #[trigger] s@[k - 1] == '_'),
        decreases n - i,
    {
        if s.get_char(i) == '_' && s.get_char(i - 1) == '_' {
            assert(s@[i as int - 1] == '_');
            return false;
        }
        i = i + 1;
    }
    true
}

fn cs_name_ok_of(n: &str) -> (r: bool)
    ensures
        r == cs_name_ok(n@),
{
    if !parts_nonempty_of(n) {
        return false;
    }
    let p = pascal(n);
    p.unicode_len() > 0 && (p.as_str().get_char(0) as u32) < 0x80
}

/// Whether the C# source can be built from these names: every record field and every
/// argument of an owned function splits into nonempty `_`-separated parts whose
/// `PascalCase` form starts with an ASCII character, and so does the method name of
/// every owned function that is no constructor.
pub fn csharp_names_ok(opaque: &Vec<String>, records: &Vec<Record>, functions: &Vec<FnSig>) -> (r: bool)
    ensures
        r == cs_names_ok(opaque@, records@, functions@),
{
    let ghost o = opaque@;
    let ghost rs = records@;
    let ghost fs = functions@;
    let mut k: usize = 0;
    while k < records.len()
        invariant
            k <= rs.len(),
            rs == records@,
            forall|i: int, j: int|
                0 <= i < k && 0 <= j < rs[i].1@.len() ==> parts_nonempty(#[trigger] rs[i].1@[j].0@),
        decreases rs.len() - k,
    {
        let fields = &records[k].1;
        let mut j: usize = 0;
        while j < fields.len()
            invariant
                k < rs.len(),
                rs == records@,
                fields@ == rs[k as int].1@,
                j <= fields@.len(),
                forall|i: int, j: int|
                    0 <= i < k && 0 <= j < rs[i].1@.len() ==> parts_nonempty(
                        #[trigger] rs[i].1@[j].0@,
                    ),
                forall|m: int| 0 <= m < j ==> parts_nonempty(#[trigger] rs[k as int].1@[m].0@),
            decreases fields@.len() - j,
        {
            if !parts_nonempty_of(fields[j].0.as_str()) {
                return false;
            }
            j = j + 1;
        }
        k = k + 1;
    }
    let mut j: usize = 0;
    while j < functions.len()
        invariant
            j <= fs.len(),
            fs == functions@,
            o == opaque@,
            rs == records@,
            forall|i: int, j: int|
                0 <= i < rs.len() && 0 <= j < rs[i].1@.len() ==> parts_nonempty(
                    #[trigger] rs[i].1@[j].0@,
                ),
            forall|m: int|
                0 <= m < j ==> (#[trigger] cs_best_owner(o, fs[m].name@, o.len()) matches Some(w)
                    ==> (forall|i: int|
                    0 <= i < fs[m].args@.len() ==> cs_name_ok(#[trigger] fs[m].args@[i].0@)) && (
                !cs_constructor(fs[m].name@, o[w]@) ==> parts_nonempty(
                    cs_method(fs[m].name@, o[w]@),
                ))),
        decreases fs.len() - j,
    {
        let f = &functions[j];
        match cs_owner_of(f.name.as_str(), opaque.as_slice()) {
            None => {},
            Some(w) => {
                let mut i: usize = 0;
                while i < f.args.len()
                    invariant
                        j < fs.len(),
                        fs == functions@,
                        o == opaque@,
                        *f == fs[j as int],
                        cs_best_owner(o, f.name@, o.len()) == Some(w as int),
                        i <= f.args@.len(),
                        forall|m: int| 0 <= m < i ==> cs_name_ok(#[trigger] f.args@[m].0@),
                    decreases f.args@.len() - i,
                {
                    if !cs_name_ok_of(f.args[i].0.as_str()) {
                        assert(cs_best_owner(o, fs[j as int].name@, o.len()) == Some(w as int));
                        assert(!cs_name_ok(fs[j as int].args@[i as int].0@));
                        return false;
                    }
                    i = i + 1;
                }
                let owner = opaque[w].as_str();
                let mut prefix = snake(owner);
                push_str(&mut prefix, "_");
                proof {
                    reveal_strlit("_");
                    assert(prefix@ =~= cs_owner_prefix(owner@));
                }
                let len = f.name.as_str().unicode_len();
                let stripped_name = f.name.as_str().substring_char(prefix.unicode_len(), len);
                assert(stripped_name@ =~= stripped(f.name@, owner@));
                let ctor = same_text(stripped_name, "new") || (same_text(owner, "FollowerOptions")
                    && same_text(stripped_name, "endpoint"));
                let method: &str = if same_text(stripped_name, "bind_endpoint") {
                    "bind"
                } else {
                    stripped_name
                };
                proof {
                    reveal_strlit("bind");
                }
                assert(method@ == cs_method(f.name@, owner@));
                if !ctor && !parts_nonempty_of(method) {
                    return false;
                }
            },
        }
        j = j + 1;
    }
    true
}

} // verus!
