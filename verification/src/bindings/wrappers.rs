//! Names for the C header, the C++ wrappers and the Swift package.
use vstd::prelude::*;

use super::{is_uppercase, same_text, to_uppercase, unicode_is_uppercase, unicode_upper};
use super::cpp::{
    all_owned, best_owner, first_arg, instance_spec, is_instance, lemma_best_owner, owned_by,
    owner_prefix, owners_of, receiver_count,
};
use super::csharp::{has_record, record_named};
use super::schema::{contains_name, named};
use super::sig::{concat, joined, lemma_concat_step, push_joined, views, FnSig, Record};
use crate::text::{push_char, push_str};
use vstd::string::StrSliceExecFns;

verus! {

/// `s` with every leading copy of the nonempty `p` removed, as `str::trim_start_matches`
/// does.
pub open spec fn strip_all(s: Seq<char>, p: Seq<char>) -> Seq<char>
    decreases s.len(),
{
    if p.len() > 0 && s.len() >= p.len() && s.take(p.len() as int) == p {
        strip_all(s.skip(p.len() as int), p)
    } else {
        s
    }
}

/// The pattern `&`.
pub open spec fn amp() -> Seq<char> {
    seq!['&']
}

/// The pattern `mut`.
pub open spec fn mut_word() -> Seq<char> {
    seq!['m', 'u', 't']
}

/// Index of the first character of `s` after the leading copies, from `k` on, of `p`.
fn skip_copies(s: &str, k: usize, p: &str) -> (r: usize)
    requires
        p@.len() > 0,
        k <= s@.len(),
    ensures
        k <= r <= s@.len(),
        s@.skip(r as int) == strip_all(s@.skip(k as int), p@),
    decreases s@.len() - k,
{
    let n = s.unicode_len();
    let m = p.unicode_len();
    if n - k < m {
        return k;
    }
    let mut j: usize = 0;
    while j < m
        invariant
            n == s@.len(),
            m == p@.len(),
            k + m <= n,
            j <= m,
            forall|i: int| 0 <= i < j ==> s@[k + i] == p@[i],
        decreases m - j,
    {
        if s.get_char(k + j) != p.get_char(j) {
            proof {
                assert(s@.skip(k as int).take(m as int)[j as int] != p@[j as int]);
            }
            return k;
        }
        j = j + 1;
    }
    proof {
        assert(s@.skip(k as int).take(m as int) =~= p@);
        assert(s@.skip(k as int).skip(m as int) =~= s@.skip((k + m) as int));
    }
    skip_copies(s, k + m, p)
}

/// The type a reference names: leading `&`s removed, then leading `mut`s.
pub fn base(t: &str) -> (r: &str)
    ensures
        r@ == strip_all(strip_all(t@, amp()), mut_word()),
{
    let n = t.unicode_len();
    proof {
        reveal_strlit("&");
        reveal_strlit("mut");
        assert(t@.skip(0) =~= t@);
    }
    let a = skip_copies(t, 0, "&");
    let b = skip_copies(t, a, "mut");
    proof {
        assert("&"@ =~= amp());
        assert("mut"@ =~= mut_word());
    }
    let r = t.substring_char(b, n);
    assert(r@ =~= t@.skip(b as int));
    r
}

/// A Rust scalar type's name in Swift (`swift`) or C.
pub open spec fn scalar_spec(t: Seq<char>, swift: bool) -> Seq<char> {
    if t == "()"@ {
        if swift {
            "Void"@
        } else {
            "void"@
        }
    } else if t == "bool"@ {
        if swift {
            "Bool"@
        } else {
            "bool"@
        }
    } else if t == "u8"@ {
        if swift {
            "UInt8"@
        } else {
            "uint8_t"@
        }
    } else if t == "u32"@ {
        if swift {
            "UInt32"@
        } else {
            "uint32_t"@
        }
    } else if t == "u64"@ {
        if swift {
            "UInt64"@
        } else {
            "uint64_t"@
        }
    } else if t == "i32"@ {
        if swift {
            "Int32"@
        } else {
            "int32_t"@
        }
    } else if t == "i64"@ {
        if swift {
            "Int64"@
        } else {
            "int64_t"@
        }
    } else if t == "f64"@ {
        if swift {
            "Double"@
        } else {
            "double"@
        }
    } else {
        t
    }
}

fn pick(swift: bool, yes: &str, no: &str) -> (r: String)
    ensures
        r@ == (if swift {
            yes@
        } else {
            no@
        }),
{
    if swift {
        yes.to_owned()
    } else {
        no.to_owned()
    }
}

pub fn scalar(t: &str, swift: bool) -> (r: String)
    ensures
        r@ == scalar_spec(t@, swift),
{
    if same_text(t, "()") {
        pick(swift, "Void", "void")
    } else if same_text(t, "bool") {
        pick(swift, "Bool", "bool")
    } else if same_text(t, "u8") {
        pick(swift, "UInt8", "uint8_t")
    } else if same_text(t, "u32") {
        pick(swift, "UInt32", "uint32_t")
    } else if same_text(t, "u64") {
        pick(swift, "UInt64", "uint64_t")
    } else if same_text(t, "i32") {
        pick(swift, "Int32", "int32_t")
    } else if same_text(t, "i64") {
        pick(swift, "Int64", "int64_t")
    } else if same_text(t, "f64") {
        pick(swift, "Double", "double")
    } else {
        t.to_owned()
    }
}

/// ASCII lower case of a character, as `char::to_ascii_lowercase`.
pub open spec fn ascii_lower_char(c: char) -> char {
    if 'A' <= c <= 'Z' {
        ((c as u8) + 32) as char
    } else {
        c
    }
}

fn to_ascii_lowercase(c: char) -> (r: char)
    ensures
        r == ascii_lower_char(c),
{
    if 'A' <= c && c <= 'Z' {
        ((c as u8) + 32) as char
    } else {
        c
    }
}

/// `snake_case` of a `CamelCase` name: an underscore before each upper-case character but
/// the first, and ASCII letters lowered.
pub open spec fn snake_spec(s: Seq<char>) -> Seq<char>
    decreases s.len(),
{
    if s.len() == 0 {
        Seq::empty()
    } else {
        let i = s.len() - 1;
        snake_spec(s.drop_last()) + (if i > 0 && unicode_is_uppercase(s[i]) {
            seq!['_']
        } else {
            Seq::empty()
        }) + seq![ascii_lower_char(s[i])]
    }
}

pub fn snake(name: &str) -> (r: String)
    ensures
        r@ == snake_spec(name@),
{
    let n = name.unicode_len();
    let mut r = String::new();
    let mut i: usize = 0;
    while i < n
        invariant
            n == name@.len(),
            i <= n,
            r@ == snake_spec(name@.take(i as int)),
        decreases n - i,
    {
        let c = name.get_char(i);
        if i > 0 && is_uppercase(c) {
            proof {
                reveal_strlit("_");
            }
            push_str(&mut r, "_");
        }
        push_char(&mut r, to_ascii_lowercase(c));
        proof {
            let t = name@.take(i + 1);
            assert(t.drop_last() =~= name@.take(i as int));
            assert(t[i as int] == c);
        }
        i = i + 1;
        assert(r@ =~= snake_spec(name@.take(i as int)));
    }
    assert(name@.take(n as int) =~= name@);
    r
}

/// `camelCase` of a `snake_case` name: underscores dropped, and the character after each
/// underscore upper-cased.
pub open spec fn camel_piece(s: Seq<char>, i: int) -> Seq<char> {
    if s[i] == '_' {
        Seq::empty()
    } else if i > 0 && s[i - 1] == '_' {
        unicode_upper(s[i])
    } else {
        seq![s[i]]
    }
}

pub open spec fn camel_spec(s: Seq<char>) -> Seq<char>
    decreases s.len(),
{
    if s.len() == 0 {
        Seq::empty()
    } else {
        camel_spec(s.drop_last()) + camel_piece(s, s.len() - 1)
    }
}

pub fn camel(name: &str) -> (r: String)
    ensures
        r@ == camel_spec(name@),
{
    let n = name.unicode_len();
    let mut r = String::new();
    let mut i: usize = 0;
    while i < n
        invariant
            n == name@.len(),
            i <= n,
            r@ == camel_spec(name@.take(i as int)),
        decreases n - i,
    {
        let c = name.get_char(i);
        let ghost t = name@.take(i + 1);
        proof {
            assert(t.drop_last() =~= name@.take(i as int));
            assert(t[i as int] == c);
            if i > 0 {
                assert(t[i - 1] == name@[i - 1]);
            }
        }
        if c == '_' {
        } else if i > 0 && name.get_char(i - 1) == '_' {
            let u = to_uppercase(c);
            push_str(&mut r, u.as_str());
        } else {
            push_char(&mut r, c);
        }
        i = i + 1;
        assert(r@ =~= camel_spec(name@.take(i as int)));
    }
    assert(name@.take(n as int) =~= name@);
    r
}


/// The text every Swift wrapper file starts with.
pub const SW_PRELUDE: &'static str = "// Generated; do not edit.\nimport TidkodSys\nimport Foundation\npublic struct TidkodError: Error, CustomStringConvertible { public let description: String }\nprivate func checked<T>(_ body: () throws -> T) throws -> T { do { return try body() } catch let error as RustString { throw TidkodError(description: error.toString()) } catch { throw error } }\n";

/// The Swift enums of the reading's state fields, with an `unknown` case for codes a newer
/// library may add.
pub const SW_ENUMS: &'static str = "public enum Synchronization: UInt8 {\ncase `uninitialized` = 0\ncase `acquiring` = 1\ncase `synchronized` = 2\ncase `holdover` = 3\ncase unknown = 255\n}\npublic enum ConnectionState: UInt8 {\ncase `disconnected` = 0\ncase `connecting` = 1\ncase `connected` = 2\ncase `shutdown` = 3\ncase unknown = 255\n}\npublic enum SourceKind: UInt8 {\ncase `generated` = 0\ncase `tracked` = 1\ncase unknown = 255\n}\npublic enum SourceHealth: UInt8 {\ncase `healthy` = 0\ncase `degraded` = 1\ncase unknown = 255\n}\n";

/// The formatted timecode property of the Swift `Reading`.
pub const SW_TIMECODE: &'static str = "public var timecode: String { String(format: \"%02d:%02d:%02d%@%02d\", hours, minutes, seconds, dropFrame ? \";\" : \":\", frame) }\n";

/// The Bonjour state a Swift `Leader` carries.
pub const SW_LEADER: &'static str = "fileprivate var bonjourAdvertisement: BonjourAdvertisement?\npublic var advertisementStatus: BonjourStatus { bonjourAdvertisement?.status ?? .disabled }\ndeinit { bonjourAdvertisement?.stop() }\n";

/// The Swift body that replaces `engine_leader`: the leader is advertised by system Bonjour.
pub const SW_ENGINE_LEADER: &'static str = "try bonjour.checkRunning()\nlet leader = Leader(raw: try checked { try TidkodSys.engine_leader_external_discovery(raw, options.raw) })\ndo { leader.bonjourAdvertisement = try bonjour.advertise(leader.advertisement()); return leader } catch { try? leader.shutdown(); throw error }\n";

pub const SW_ENGINE_DISCOVERY: &'static str = "return try Discovery(context: bonjour, engine: raw, interfaces: [])\n";

pub const SW_ENGINE_DISCOVERY_CONFIGURED: &'static str = "let interfaces = try (0..<options.interfaceCount()).map { try options.interfaceName(index: $0) }\nreturn try Discovery(context: bonjour, engine: raw, interfaces: interfaces)\n";

pub const SW_FOLLOWER_DISCOVERED: &'static str = "return try discovery.resolvedOptions(index: index, addressIndex: addressIndex)\n";

/// The Swift body that replaces the generated call of `name`, if any.
pub open spec fn sw_adapter(name: Seq<char>) -> Option<Seq<char>> {
    if name == "engine_leader"@ {
        Some(SW_ENGINE_LEADER@)
    } else if name == "engine_discovery"@ {
        Some(SW_ENGINE_DISCOVERY@)
    } else if name == "engine_discovery_configured"@ {
        Some(SW_ENGINE_DISCOVERY_CONFIGURED@)
    } else if name == "follower_options_discovered"@ {
        Some(SW_FOLLOWER_DISCOVERED@)
    } else {
        None
    }
}

/// The Swift enum a field of `Reading` holds, if any.
pub open spec fn sw_kind(record: Seq<char>, n: Seq<char>) -> Option<Seq<char>> {
    if record != "Reading"@ {
        None
    } else if n == "synchronization"@ {
        Some("Synchronization"@)
    } else if n == "connection"@ {
        Some("ConnectionState"@)
    } else if n == "source_kind"@ {
        Some("SourceKind"@)
    } else if n == "source_health"@ {
        Some("SourceHealth"@)
    } else {
        None
    }
}

pub open spec fn sw_field(record: Seq<char>, n: Seq<char>, t: Seq<char>) -> Seq<char> {
    match sw_kind(record, n) {
        Some(kind) => "public var `"@ + camel_spec(n) + "`: "@ + kind + " { "@ + kind
            + "(rawValue: raw."@ + n + ") ?? .unknown }\n"@,
        None => "public var `"@ + camel_spec(n) + "`: "@ + scalar_spec(t, true) + " { raw."@ + n
            + " }\n"@,
    }
}

#[verifier::opaque]
pub open spec fn sw_record(r: Record) -> Seq<char> {
    let name = r.0@;
    "public struct "@ + name + " { fileprivate let raw: TidkodSys."@ + name + "\n"@ + concat(
        Seq::new(r.1@.len(), |i: int| sw_field(name, r.1@[i].0@, r.1@[i].1@)),
    ) + (if name == "Reading"@ {
        SW_TIMECODE@
    } else {
        Seq::empty()
    }) + "}\n"@
}

/// A Rust type's Swift type in a wrapper signature.
pub open spec fn sw_typ(t: Seq<char>) -> Seq<char> {
    if t == "String"@ || t == "&str"@ {
        "String"@
    } else if t == "Vec<u8>"@ || t == "&[u8]"@ {
        "[UInt8]"@
    } else {
        scalar_spec(strip_all(strip_all(t, amp()), mut_word()), true)
    }
}

/// The method name of `f` in its owner `owner`.
pub open spec fn sw_method(name: Seq<char>, owner: Seq<char>) -> Seq<char> {
    name.skip(owner_prefix(owner).len() as int)
}

/// The index of the first byte-slice argument from `k` on.
pub open spec fn first_bytes(f: FnSig, k: nat) -> Option<int>
    decreases f.args@.len() - k,
{
    if k >= f.args@.len() {
        None
    } else if f.args@[k as int].1@ == "&[u8]"@ {
        Some(k as int)
    } else {
        first_bytes(f, k + 1)
    }
}

/// The parameter list of a generated Swift declaration: every argument
/// after the receiver, as a back-quoted camel-case name and its Swift type.
#[verifier::opaque]
pub open spec fn sw_decl(f: FnSig, owner: Seq<char>) -> Seq<char> {
    let k = receiver_count(instance_spec(first_arg(f), owner));
    joined(
        Seq::new(
            (f.args@.len() - k) as nat,
            |i: int| "`"@ + camel_spec(f.args@[i + k].0@) + "`: "@ + sw_typ(f.args@[i + k].1@),
        ),
        ", "@,
    )
}

#[verifier::opaque]
pub open spec fn sw_head(f: FnSig, owner: Seq<char>) -> Seq<char> {
    let inst = instance_spec(first_arg(f), owner);
    let decl = sw_decl(f, owner);
    let throws = if f.fallible {
        "throws"@
    } else {
        Seq::empty()
    };
    if sw_method(f.name@, owner) == "new"@ {
        "public convenience init("@ + decl + ") "@ + throws + " {\n"@
    } else {
        "public "@ + (if inst {
            Seq::empty()
        } else {
            "static "@
        }) + "func `"@ + camel_spec(sw_method(f.name@, owner)) + "`("@ + decl + ") "@ + throws
            + " -> "@ + sw_typ(f.ret@) + " {\n"@
    }
}

pub open spec fn sw_callarg(opaque: Seq<String>, f: FnSig, owner: Seq<char>, i: int) -> Seq<char> {
    let n = f.args@[i].0@;
    let t = f.args@[i].1@;
    if instance_spec(first_arg(f), owner) && i == 0 {
        "raw"@
    } else if named(opaque, strip_all(strip_all(t, amp()), mut_word())) {
        "`"@ + camel_spec(n) + "`.raw"@
    } else if t == "&[u8]"@ {
        "buffer"@
    } else {
        "`"@ + camel_spec(n) + "`"@
    }
}

/// The call of the C function, wrapped as the arguments and failure need.
#[verifier::opaque]
pub open spec fn sw_expr(opaque: Seq<String>, f: FnSig, owner: Seq<char>) -> Seq<char> {
    let tr = if f.fallible {
        "try "@
    } else {
        Seq::empty()
    };
    let call = tr + "TidkodSys."@ + f.name@ + "("@ + joined(
        Seq::new(f.args@.len(), |i: int| sw_callarg(opaque, f, owner, i)),
        ", "@,
    ) + ")"@;
    let k = receiver_count(instance_spec(first_arg(f), owner));
    let pinned = match first_bytes(f, k as nat) {
        Some(b) => tr + "`"@ + camel_spec(f.args@[b].0@) + "`.withUnsafeBufferPointer { buffer in "@
            + call + " }"@,
        None => call,
    };
    if f.fallible {
        "try checked { "@ + pinned + " }"@
    } else {
        pinned
    }
}

/// What the method does with the call's value.
#[verifier::opaque]
pub open spec fn sw_finish(opaque: Seq<String>, records: Seq<Record>, f: FnSig, owner: Seq<char>) -> Seq<char> {
    let expr = sw_expr(opaque, f, owner);
    if sw_method(f.name@, owner) == "new"@ {
        "self.init(raw: "@ + expr + ")\n"@
    } else if f.ret@ == "()"@ {
        expr + "\n"@
    } else {
        "let value = "@ + expr + "\nreturn "@ + (if named(opaque, f.ret@) || record_named(
            records,
            f.ret@,
        ) {
            f.ret@ + "(raw: value)"@
        } else if f.ret@ == "String"@ {
            "value.toString()"@
        } else if f.ret@ == "Vec<u8>"@ {
            "Array(value)"@
        } else {
            "value"@
        }) + "\n"@
    }
}

/// The method `f` becomes in the Swift type `owner`.
#[verifier::opaque]
pub open spec fn sw_function(opaque: Seq<String>, records: Seq<Record>, f: FnSig, owner: Seq<char>) -> Seq<char> {
    sw_head(f, owner) + match sw_adapter(f.name@) {
        Some(body) => body + "}\n"@,
        None => (if f.name@ == "engine_shutdown"@ {
            "bonjour.shutdown()\n"@
        } else {
            Seq::empty()
        }) + (if f.name@ == "leader_shutdown"@ {
            "bonjourAdvertisement?.stop()\n"@
        } else {
            Seq::empty()
        }) + sw_finish(opaque, records, f, owner) + "}\n"@,
    }
}

#[verifier::opaque]
pub open spec fn sw_type_head(t: Seq<char>) -> Seq<char> {
    "/// Owned handle. Serialize access; this type is deliberately not Sendable.\npublic "@ + (if t
        == "Endpoint"@ {
        "struct"@
    } else {
        "final class"@
    }) + " "@ + t + " { fileprivate let raw: TidkodSys."@ + t + "\nfileprivate init(raw: TidkodSys."@
        + t + ") { self.raw = raw }\n"@ + (if t == "Engine"@ {
        "fileprivate let bonjour = BonjourContext()\n"@
    } else {
        Seq::empty()
    }) + (if t == "Leader"@ {
        SW_LEADER@
    } else {
        Seq::empty()
    })
}

/// The Swift type of the `k`-th handle with the methods it owns; none for `Discovery`,
/// whose Swift surface is written by hand over system Bonjour.
pub open spec fn sw_type(opaque: Seq<String>, records: Seq<Record>, fns: Seq<FnSig>, k: int) -> Seq<char> {
    if opaque[k]@ == "Discovery"@ {
        Seq::empty()
    } else {
        sw_type_head(opaque[k]@) + concat(
            Seq::new(
                fns.len(),
                |j: int|
                    if owned_by(opaque, fns[j], k) && fns[j].name@ != "engine_leader_external_discovery"@ {
                        sw_function(opaque, records, fns[j], opaque[k]@)
                    } else {
                        Seq::empty()
                    },
            ),
        ) + "}\n"@
    }
}

/// Whether Swift generation needs every function to have an owner: some handle other than
/// `Discovery` is generated.
pub open spec fn sw_needs_owners(opaque: Seq<String>) -> bool {
    exists|k: int| 0 <= k < opaque.len() && (#[trigger] opaque[k])@ != "Discovery"@
}

/// The generated Swift wrappers (`TidkodClient.swift`, before the hand-written templates
/// that the caller appends): the enums, a struct per record and a type per handle, in the
/// order given.
pub open spec fn swift_spec(opaque: Seq<String>, records: Seq<Record>, fns: Seq<FnSig>) -> Seq<char> {
    SW_PRELUDE@ + SW_ENUMS@ + concat(Seq::new(records.len(), |k: int| sw_record(records[k])))
        + concat(Seq::new(opaque.len(), |k: int| sw_type(opaque, records, fns, k)))
}

fn sw_field_of(record: &str, n: &str, t: &str) -> (r: String)
    ensures
        r@ == sw_field(record@, n@, t@),
{
    let reading = same_text(record, "Reading");
    let kind: Option<&str> = if !reading {
        None
    } else if same_text(n, "synchronization") {
        Some("Synchronization")
    } else if same_text(n, "connection") {
        Some("ConnectionState")
    } else if same_text(n, "source_kind") {
        Some("SourceKind")
    } else if same_text(n, "source_health") {
        Some("SourceHealth")
    } else {
        None
    };
    let c = camel(n);
    let mut r = "public var `".to_owned();
    push_str(&mut r, c.as_str());
    push_str(&mut r, "`: ");
    match kind {
        Some(k) => {
            push_str(&mut r, k);
            push_str(&mut r, " { ");
            push_str(&mut r, k);
            push_str(&mut r, "(rawValue: raw.");
            push_str(&mut r, n);
            push_str(&mut r, ") ?? .unknown }\n");
        },
        None => {
            let sc = scalar(t, true);
            push_str(&mut r, sc.as_str());
            push_str(&mut r, " { raw.");
            push_str(&mut r, n);
            push_str(&mut r, " }\n");
        },
    }
    assert(r@ =~= sw_field(record@, n@, t@));
    r
}

fn push_sw_record(s: &mut String, rec: &Record)
    ensures
        final(s)@ == old(s)@ + sw_record(*rec),
{
    proof {
        reveal(sw_record);
    }
    let ghost start = s@;
    let name = rec.0.as_str();
    push_str(s, "public struct ");
    push_str(s, name);
    push_str(s, " { fileprivate let raw: TidkodSys.");
    push_str(s, name);
    push_str(s, "\n");
    let ghost s1 = s@;
    let ghost p = Seq::new(rec.1@.len(), |i: int| sw_field(name@, rec.1@[i].0@, rec.1@[i].1@));
    let mut i: usize = 0;
    assert(p.take(0) =~= Seq::<Seq<char>>::empty());
    while i < rec.1.len()
        invariant
            i <= rec.1@.len(),
            name@ == rec.0@,
            p == Seq::new(rec.1@.len(), |i: int| sw_field(name@, rec.1@[i].0@, rec.1@[i].1@)),
            s@ == s1 + concat(p.take(i as int)),
        decreases rec.1@.len() - i,
    {
        proof {
            lemma_concat_step(p, i as int);
        }
        let f = sw_field_of(name, rec.1[i].0.as_str(), rec.1[i].1.as_str());
        push_str(s, f.as_str());
        i = i + 1;
    }
    assert(p.take(i as int) =~= p);
    if same_text(name, "Reading") {
        push_str(s, SW_TIMECODE);
    }
    push_str(s, "}\n");
    assert(s@ =~= start + sw_record(*rec));
}

fn sw_typ_of(t: &str) -> (r: String)
    ensures
        r@ == sw_typ(t@),
{
    if same_text(t, "String") || same_text(t, "&str") {
        "String".to_owned()
    } else if same_text(t, "Vec<u8>") || same_text(t, "&[u8]") {
        "[UInt8]".to_owned()
    } else {
        scalar(base(t), true)
    }
}

fn sw_decl_of(f: &FnSig, owner: &str, instance: bool) -> (r: String)
    requires
        instance == instance_spec(first_arg(*f), owner@),
    ensures
        r@ == sw_decl(*f, owner@),
{
    proof {
        reveal(sw_decl);
    }
    let k: usize = if instance {
        1
    } else {
        0
    };
    let n = f.args.len();
    let mut parts: Vec<String> = Vec::new();
    let mut i: usize = k;
    while i < n
        invariant
            k <= i <= n,
            n == f.args@.len(),
            k == receiver_count(instance),
            parts@.len() == i - k,
            forall|j: int|
                0 <= j < i - k ==> (#[trigger] parts@[j])@ == "`"@ + camel_spec(f.args@[j + k].0@)
                    + "`: "@ + sw_typ(f.args@[j + k].1@),
        decreases n - i,
    {
        let mut p = "`".to_owned();
        let c = camel(f.args[i].0.as_str());
        push_str(&mut p, c.as_str());
        push_str(&mut p, "`: ");
        let t = sw_typ_of(f.args[i].1.as_str());
        push_str(&mut p, t.as_str());
        parts.push(p);
        i = i + 1;
    }
    assert(views(parts@) =~= Seq::new(
        (f.args@.len() - k) as nat,
        |i: int| "`"@ + camel_spec(f.args@[i + k].0@) + "`: "@ + sw_typ(f.args@[i + k].1@),
    ));
    let mut decl = String::new();
    push_joined(&mut decl, &parts, ", ");
    decl
}

fn push_sw_head(s: &mut String, f: &FnSig, owner: &str, instance: bool, method: &str)
    requires
        instance == instance_spec(first_arg(*f), owner@),
        method@ == sw_method(f.name@, owner@),
    ensures
        final(s)@ == old(s)@ + sw_head(*f, owner@),
{
    proof {
        reveal(sw_head);
    }
    let ghost start = s@;
    let decl = sw_decl_of(f, owner, instance);
    if same_text(method, "new") {
        push_str(s, "public convenience init(");
        push_str(s, decl.as_str());
        push_str(s, ") ");
        if f.fallible {
            push_str(s, "throws");
        }
        push_str(s, " {\n");
    } else {
        push_str(s, "public ");
        if !instance {
            push_str(s, "static ");
        }
        push_str(s, "func `");
        let c = camel(method);
        push_str(s, c.as_str());
        push_str(s, "`(");
        push_str(s, decl.as_str());
        push_str(s, ") ");
        if f.fallible {
            push_str(s, "throws");
        }
        push_str(s, " -> ");
        let rt = sw_typ_of(f.ret.as_str());
        push_str(s, rt.as_str());
        push_str(s, " {\n");
    }
    assert(s@ =~= start + sw_head(*f, owner@));
}

fn sw_callarg_of(opaque: &Vec<String>, f: &FnSig, owner: &str, instance: bool, i: usize) -> (r: String)
    requires
        instance == instance_spec(first_arg(*f), owner@),
        i < f.args@.len(),
    ensures
        r@ == sw_callarg(opaque@, *f, owner@, i as int),
{
    let n = f.args[i].0.as_str();
    let t = f.args[i].1.as_str();
    let mut r = String::new();
    if instance && i == 0 {
        push_str(&mut r, "raw");
    } else if contains_name(opaque.as_slice(), base(t)) {
        push_str(&mut r, "`");
        let c = camel(n);
        push_str(&mut r, c.as_str());
        push_str(&mut r, "`.raw");
    } else if same_text(t, "&[u8]") {
        push_str(&mut r, "buffer");
    } else {
        push_str(&mut r, "`");
        let c = camel(n);
        push_str(&mut r, c.as_str());
        push_str(&mut r, "`");
    }
    assert(r@ =~= sw_callarg(opaque@, *f, owner@, i as int));
    r
}

fn first_bytes_of(f: &FnSig, k: usize) -> (r: Option<usize>)
    requires
        k <= f.args@.len(),
    ensures
        match r {
            Some(b) => first_bytes(*f, k as nat) == Some(b as int) && b < f.args@.len(),
            None => first_bytes(*f, k as nat) is None,
        },
    decreases f.args@.len() - k,
{
    if k >= f.args.len() {
        None
    } else if same_text(f.args[k].1.as_str(), "&[u8]") {
        Some(k)
    } else {
        first_bytes_of(f, k + 1)
    }
}

fn sw_expr_of(opaque: &Vec<String>, f: &FnSig, owner: &str, instance: bool) -> (r: String)
    requires
        instance == instance_spec(first_arg(*f), owner@),
    ensures
        r@ == sw_expr(opaque@, *f, owner@),
{
    proof {
        reveal(sw_expr);
    }
    let mut parts: Vec<String> = Vec::new();
    let mut i: usize = 0;
    while i < f.args.len()
        invariant
            i <= f.args@.len(),
            instance == instance_spec(first_arg(*f), owner@),
            parts@.len() == i,
            forall|j: int|
                0 <= j < i ==> (#[trigger] parts@[j])@ == sw_callarg(opaque@, *f, owner@, j),
        decreases f.args@.len() - i,
    {
        parts.push(sw_callarg_of(opaque, f, owner, instance, i));
        i = i + 1;
    }
    assert(views(parts@) =~= Seq::new(
        f.args@.len(),
        |i: int| sw_callarg(opaque@, *f, owner@, i),
    ));
    let mut call = String::new();
    if f.fallible {
        push_str(&mut call, "try ");
    }
    push_str(&mut call, "TidkodSys.");
    push_str(&mut call, f.name.as_str());
    push_str(&mut call, "(");
    push_joined(&mut call, &parts, ", ");
    push_str(&mut call, ")");
    let k: usize = if instance {
        1
    } else {
        0
    };
    let pinned = match first_bytes_of(f, k) {
        Some(b) => {
            let mut p = String::new();
            if f.fallible {
                push_str(&mut p, "try ");
            }
            push_str(&mut p, "`");
            let c = camel(f.args[b].0.as_str());
            push_str(&mut p, c.as_str());
            push_str(&mut p, "`.withUnsafeBufferPointer { buffer in ");
            push_str(&mut p, call.as_str());
            push_str(&mut p, " }");
            p
        },
        None => call,
    };
    let r = if f.fallible {
        let mut x = "try checked { ".to_owned();
        push_str(&mut x, pinned.as_str());
        push_str(&mut x, " }");
        x
    } else {
        pinned
    };
    assert(r@ =~= sw_expr(opaque@, *f, owner@));
    r
}

fn push_sw_finish(s: &mut String, opaque: &Vec<String>, records: &Vec<Record>, f: &FnSig, owner: &str, instance: bool, method: &str)
    requires
        instance == instance_spec(first_arg(*f), owner@),
        method@ == sw_method(f.name@, owner@),
    ensures
        final(s)@ == old(s)@ + sw_finish(opaque@, records@, *f, owner@),
{
    proof {
        reveal(sw_finish);
    }
    let ghost start = s@;
    let expr = sw_expr_of(opaque, f, owner, instance);
    let ret = f.ret.as_str();
    if same_text(method, "new") {
        push_str(s, "self.init(raw: ");
        push_str(s, expr.as_str());
        push_str(s, ")\n");
    } else if same_text(ret, "()") {
        push_str(s, expr.as_str());
        push_str(s, "\n");
    } else {
        push_str(s, "let value = ");
        push_str(s, expr.as_str());
        push_str(s, "\nreturn ");
        if contains_name(opaque.as_slice(), ret) || has_record(records, ret) {
            push_str(s, ret);
            push_str(s, "(raw: value)");
        } else if same_text(ret, "String") {
            push_str(s, "value.toString()");
        } else if same_text(ret, "Vec<u8>") {
            push_str(s, "Array(value)");
        } else {
            push_str(s, "value");
        }
        push_str(s, "\n");
    }
    assert(s@ =~= start + sw_finish(opaque@, records@, *f, owner@));
}

fn sw_adapter_of(name: &str) -> (r: Option<&'static str>)
    ensures
        match r {
            Some(b) => sw_adapter(name@) == Some(b@),
            None => sw_adapter(name@) is None,
        },
{
    if same_text(name, "engine_leader") {
        Some(SW_ENGINE_LEADER)
    } else if same_text(name, "engine_discovery") {
        Some(SW_ENGINE_DISCOVERY)
    } else if same_text(name, "engine_discovery_configured") {
        Some(SW_ENGINE_DISCOVERY_CONFIGURED)
    } else if same_text(name, "follower_options_discovered") {
        Some(SW_FOLLOWER_DISCOVERED)
    } else {
        None
    }
}

fn push_sw_function(s: &mut String, opaque: &Vec<String>, records: &Vec<Record>, f: &FnSig, owner: &str)
    requires
        owner_prefix(owner@).is_prefix_of(f.name@),
    ensures
        final(s)@ == old(s)@ + sw_function(opaque@, records@, *f, owner@),
{
    proof {
        reveal(sw_function);
    }
    let ghost start = s@;
    let mut prefix = snake(owner);
    push_str(&mut prefix, "_");
    proof {
        reveal_strlit("_");
        assert(prefix@ =~= owner_prefix(owner@));
    }
    let len = f.name.as_str().unicode_len();
    let method = f.name.as_str().substring_char(prefix.unicode_len(), len);
    assert(method@ =~= sw_method(f.name@, owner@));
    let first = if f.args.len() > 0 {
        Some(f.args[0].1.as_str())
    } else {
        None
    };
    let instance = is_instance(first, owner);
    push_sw_head(s, f, owner, instance, method);
    let ghost s1 = s@;
    match sw_adapter_of(f.name.as_str()) {
        Some(body) => {
            push_str(s, body);
            push_str(s, "}\n");
        },
        None => {
            if same_text(f.name.as_str(), "engine_shutdown") {
                push_str(s, "bonjour.shutdown()\n");
            }
            if same_text(f.name.as_str(), "leader_shutdown") {
                push_str(s, "bonjourAdvertisement?.stop()\n");
            }
            push_sw_finish(s, opaque, records, f, owner, instance, method);
            push_str(s, "}\n");
        },
    }
    assert(s@ =~= start + sw_function(opaque@, records@, *f, owner@));
}

fn push_sw_type_head(s: &mut String, t: &str)
    ensures
        final(s)@ == old(s)@ + sw_type_head(t@),
{
    proof {
        reveal(sw_type_head);
    }
    let ghost start = s@;
    push_str(s, "/// Owned handle. Serialize access; this type is deliberately not Sendable.\npublic ");
    if same_text(t, "Endpoint") {
        push_str(s, "struct");
    } else {
        push_str(s, "final class");
    }
    push_str(s, " ");
    push_str(s, t);
    push_str(s, " { fileprivate let raw: TidkodSys.");
    push_str(s, t);
    push_str(s, "\nfileprivate init(raw: TidkodSys.");
    push_str(s, t);
    push_str(s, ") { self.raw = raw }\n");
    if same_text(t, "Engine") {
        push_str(s, "fileprivate let bonjour = BonjourContext()\n");
    }
    if same_text(t, "Leader") {
        push_str(s, SW_LEADER);
    }
    assert(s@ =~= start + sw_type_head(t@));
}

/// The generated Swift wrappers for the handles `opaque` and records `records`, in the
/// order given, and the API `functions`, before the hand-written templates. Every function
/// must have an owning handle when a handle other than `Discovery` is generated; otherwise
/// it is refused.
pub fn swift_wrappers(opaque: &Vec<String>, records: &Vec<Record>, functions: &Vec<FnSig>) -> (r: Result<
    String,
    String,
>)
    ensures
        match r {
            Ok(s) => (sw_needs_owners(opaque@) ==> all_owned(opaque@, functions@)) && s@
                == swift_spec(opaque@, records@, functions@),
            Err(e) => sw_needs_owners(opaque@) && !all_owned(opaque@, functions@) && e@
                == "function needs an owning handle"@,
        },
{
    let ghost o = opaque@;
    let ghost rs = records@;
    let ghost fs = functions@;
    let mut needs = false;
    let mut k: usize = 0;
    while k < opaque.len()
        invariant
            k <= o.len(),
            o == opaque@,
            needs == exists|i: int| 0 <= i < k && (#[trigger] o[i])@ != "Discovery"@,
        decreases o.len() - k,
    {
        if !same_text(opaque[k].as_str(), "Discovery") {
            needs = true;
        }
        k = k + 1;
    }
    let owners: Vec<usize> = match owners_of(opaque, functions) {
        Some(v) => v,
        None => {
            if needs {
                return Err("function needs an owning handle".to_owned());
            }
            Vec::new()
        },
    };
    let mut s = SW_PRELUDE.to_owned();
    push_str(&mut s, SW_ENUMS);
    let ghost s0 = s@;
    let ghost p1 = Seq::new(rs.len(), |k: int| sw_record(rs[k]));
    let mut k: usize = 0;
    assert(p1.take(0) =~= Seq::<Seq<char>>::empty());
    while k < records.len()
        invariant
            k <= rs.len(),
            rs == records@,
            p1 == Seq::new(rs.len(), |k: int| sw_record(rs[k])),
            s@ == s0 + concat(p1.take(k as int)),
        decreases rs.len() - k,
    {
        proof {
            lemma_concat_step(p1, k as int);
        }
        push_sw_record(&mut s, &records[k]);
        k = k + 1;
    }
    assert(p1.take(k as int) =~= p1);
    let ghost s1 = s@;
    let ghost p2 = Seq::new(o.len(), |k: int| sw_type(o, rs, fs, k));
    let mut k: usize = 0;
    assert(p2.take(0) =~= Seq::<Seq<char>>::empty());
    while k < opaque.len()
        invariant
            k <= o.len(),
            o == opaque@,
            rs == records@,
            fs == functions@,
            needs == sw_needs_owners(o),
            needs ==> owners@.len() == fs.len() && forall|j: int|
                0 <= j < fs.len() ==> best_owner(o, fs[j].name@, o.len()) == Some(
                    #[trigger] owners@[j] as int,
                ),
            p2 == Seq::new(o.len(), |k: int| sw_type(o, rs, fs, k)),
            s@ == s1 + concat(p2.take(k as int)),
        decreases o.len() - k,
    {
        proof {
            lemma_concat_step(p2, k as int);
        }
        let owner = opaque[k].as_str();
        let ghost sk = s@;
        if !same_text(owner, "Discovery") {
            proof {
                assert(o[k as int]@ != "Discovery"@);
                assert(needs);
            }
            push_sw_type_head(&mut s, owner);
            let ghost sh = s@;
            let ghost pf = Seq::new(
                fs.len(),
                |j: int|
                    if owned_by(o, fs[j], k as int) && fs[j].name@ != "engine_leader_external_discovery"@ {
                        sw_function(o, rs, fs[j], o[k as int]@)
                    } else {
                        Seq::empty()
                    },
            );
            let mut j: usize = 0;
            assert(pf.take(0) =~= Seq::<Seq<char>>::empty());
            while j < functions.len()
                invariant
                    j <= fs.len(),
                    k < o.len(),
                    o == opaque@,
                    rs == records@,
                    fs == functions@,
                    owner@ == o[k as int]@,
                    owners@.len() == fs.len(),
                    forall|i: int|
                        0 <= i < fs.len() ==> best_owner(o, fs[i].name@, o.len()) == Some(
                            #[trigger] owners@[i] as int,
                        ),
                    pf == Seq::new(
                        fs.len(),
                        |j: int|
                            if owned_by(o, fs[j], k as int) && fs[j].name@
                                != "engine_leader_external_discovery"@ {
                                sw_function(o, rs, fs[j], o[k as int]@)
                            } else {
                                Seq::empty()
                            },
                    ),
                    s@ == sh + concat(pf.take(j as int)),
                decreases fs.len() - j,
            {
                proof {
                    lemma_concat_step(pf, j as int);
                }
                let w = owners[j];
                proof {
                    lemma_best_owner(o, fs[j as int].name@, o.len());
                }
                if same_text(opaque[w].as_str(), owner) && !same_text(
                    functions[j].name.as_str(),
                    "engine_leader_external_discovery",
                ) {
                    push_sw_function(&mut s, opaque, records, &functions[j], owner);
                }
                j = j + 1;
            }
            assert(pf.take(j as int) =~= pf);
            push_str(&mut s, "}\n");
        }
        assert(s@ =~= sk + sw_type(o, rs, fs, k as int));
        k = k + 1;
    }
    assert(p2.take(k as int) =~= p2);
    Ok(s)
}

} // verus!
