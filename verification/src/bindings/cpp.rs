//! Names and types of the C++ ownership wrappers over the C ABI.
use vstd::prelude::*;

use super::same_text;
use super::schema::{contains_name, named, starts_with};
use super::sig::{
    concat, joined, lemma_concat_step, lower_text, push_joined, unicode_lower_text, views, FnSig,
    Record,
};
use super::wrappers::{amp, base, mut_word, scalar, scalar_spec, snake, snake_spec, strip_all};
use crate::text::push_str;
use vstd::string::StrSliceExecFns;
use vstd::utf8::encode_utf8;

verus! {

/// A Rust type's C++ parameter or result type.
pub open spec fn typ_spec(t: Seq<char>) -> Seq<char> {
    if t == "String"@ {
        "std::string"@
    } else if t == "&str"@ {
        "std::string_view"@
    } else if t == "Vec<u8>"@ {
        "std::vector<uint8_t>"@
    } else if t == "&[u8]"@ {
        "const std::vector<uint8_t>&"@
    } else if amp().is_prefix_of(t) {
        strip_all(strip_all(t, amp()), mut_word()) + seq!['&']
    } else {
        scalar_spec(t, false)
    }
}

pub fn typ(t: &str) -> (r: String)
    ensures
        r@ == typ_spec(t@),
{
    proof {
        reveal_strlit("&");
        assert("&"@ =~= amp());
    }
    if same_text(t, "String") {
        "std::string".to_owned()
    } else if same_text(t, "&str") {
        "std::string_view".to_owned()
    } else if same_text(t, "Vec<u8>") {
        "std::vector<uint8_t>".to_owned()
    } else if same_text(t, "&[u8]") {
        "const std::vector<uint8_t>&".to_owned()
    } else if starts_with(t, "&") {
        let mut r = base(t).to_owned();
        push_str(&mut r, "&");
        r
    } else {
        scalar(t, false)
    }
}

/// The prefix of the functions an opaque type owns: its `snake_case` name and `_`.
pub open spec fn owner_prefix(owner: Seq<char>) -> Seq<char> {
    snake_spec(owner) + seq!['_']
}

/// Byte length of a name, by which the longest owner is chosen (`str::len`).
pub open spec fn name_bytes(s: Seq<char>) -> usize {
    encode_utf8(s).len() as usize
}

/// Whether the `i`-th opaque type owns the function `name`.
pub open spec fn owns(opaque: Seq<String>, i: int, name: Seq<char>) -> bool {
    owner_prefix(opaque[i]@).is_prefix_of(name)
}

/// The owner among the first `n` opaque types, as `owner_of` scans them: a later type
/// whose prefix fits replaces the best so far when its name is at least as long.
pub open spec fn best_owner(opaque: Seq<String>, name: Seq<char>, n: nat) -> Option<int>
    decreases n,
{
    if n == 0 {
        None
    } else {
        let prev = best_owner(opaque, name, (n - 1) as nat);
        if owns(opaque, n - 1, name) && (prev is None || name_bytes(opaque[n - 1]@) >= name_bytes(
            opaque[prev->0]@,
        )) {
            Some(n - 1)
        } else {
            prev
        }
    }
}

/// The opaque type that owns the function `name`: among those whose prefix starts the
/// name, the one with the longest name in bytes, the last of equals; none when no prefix
/// fits.
pub fn owner_of(name: &str, opaque: &[String]) -> (r: Option<usize>)
    ensures
        r is None <==> forall|i: int| 0 <= i < opaque@.len() ==> !owns(opaque@, i, name@),
        match r {
            Some(k) => best_owner(opaque@, name@, opaque@.len()) == Some(k as int),
            None => best_owner(opaque@, name@, opaque@.len()) is None,
        },
        r matches Some(k) ==> {
            &&& k < opaque@.len()
            &&& owns(opaque@, k as int, name@)
            &&& forall|j: int|
                0 <= j < opaque@.len() && owns(opaque@, j, name@) ==> name_bytes(opaque@[j]@)
                    <= name_bytes(opaque@[k as int]@)
            &&& forall|j: int|
                k < j < opaque@.len() && owns(opaque@, j, name@) ==> name_bytes(opaque@[j]@)
                    < name_bytes(opaque@[k as int]@)
        },
{
    let mut best: Option<usize> = None;
    let mut best_len: usize = 0;
    let mut i: usize = 0;
    while i < opaque.len()
        invariant
            i <= opaque@.len(),
            best is None <==> forall|j: int| 0 <= j < i ==> !owns(opaque@, j, name@),
            match best {
                Some(k) => best_owner(opaque@, name@, i as nat) == Some(k as int),
                None => best_owner(opaque@, name@, i as nat) is None,
            },
            best matches Some(k) ==> {
                &&& k < i
                &&& owns(opaque@, k as int, name@)
                &&& best_len == name_bytes(opaque@[k as int]@)
                &&& forall|j: int|
                    0 <= j < i && owns(opaque@, j, name@) ==> name_bytes(opaque@[j]@) <= best_len
                &&& forall|j: int|
                    k < j < i && owns(opaque@, j, name@) ==> name_bytes(opaque@[j]@) < best_len
            },
        decreases opaque@.len() - i,
    {
        let t = opaque[i].as_str();
        let mut prefix = snake(t);
        push_str(&mut prefix, "_");
        proof {
            reveal_strlit("_");
            assert(prefix@ =~= owner_prefix(opaque@[i as int]@));
        }
        let fits = starts_with(name, prefix.as_str());
        assert(fits == owns(opaque@, i as int, name@));
        if fits {
            let len = t.len();
            let better = match best {
                None => true,
                Some(_) => len >= best_len,
            };
            if better {
                best = Some(i);
                best_len = len;
            }
        }
        i = i + 1;
    }
    best
}

/// The method a function becomes on its owner: the name after the owner's prefix, with
/// `new` becoming `create`.
pub open spec fn method_spec(name: Seq<char>, owner: Seq<char>) -> Seq<char> {
    let rest = name.skip(owner_prefix(owner).len() as int);
    if rest == "new"@ {
        "create"@
    } else {
        rest
    }
}

pub fn method_name(name: &str, owner: &str) -> (r: String)
    requires
        owner_prefix(owner@).is_prefix_of(name@),
    ensures
        r@ == method_spec(name@, owner@),
{
    let mut prefix = snake(owner);
    push_str(&mut prefix, "_");
    proof {
        reveal_strlit("_");
        assert(prefix@ =~= owner_prefix(owner@));
    }
    let n = name.unicode_len();
    let rest = name.substring_char(prefix.unicode_len(), n);
    assert(rest@ =~= name@.skip(owner_prefix(owner@).len() as int));
    if same_text(rest, "new") {
        "create".to_owned()
    } else {
        rest.to_owned()
    }
}

/// Whether a function with first argument type `first` is an instance method of `owner`:
/// the argument is a reference to the owner.
pub open spec fn instance_spec(first: Option<Seq<char>>, owner: Seq<char>) -> bool {
    first matches Some(t) && amp().is_prefix_of(t) && strip_all(strip_all(t, amp()), mut_word())
        == owner
}

pub fn is_instance(first: Option<&str>, owner: &str) -> (r: bool)
    ensures
        r == instance_spec(
            match first {
                Some(t) => Some(t@),
                None => None,
            },
            owner@,
        ),
{
    proof {
        reveal_strlit("&");
        assert("&"@ =~= amp());
    }
    match first {
        Some(t) => starts_with(t, "&") && same_text(base(t), owner),
        None => false,
    }
}

/// The text every C++ header starts with: the result and buffer helpers.
pub const CPP_PRELUDE: &'static str = "// Generated; do not edit.\n#pragma once\n#include \"ethersync.h\"\n#include <optional>\n#include <string>\n#include <string_view>\n#include <vector>\n#include <utility>\n#include <cstdlib>\nnamespace ethersync::client {\ntemplate<class T> class Result {\n    std::optional<T> value_; std::string error_;\n    Result(std::string error, int): error_(std::move(error)) {}\npublic:\n    explicit Result(T value): value_(std::move(value)) {}\n    static Result failure(std::string error) { return Result(std::move(error), 0); }\n    explicit operator bool() const { return value_.has_value(); }\n    const std::string& error() const { return error_; }\n    T& value() { if (!value_) std::abort(); return *value_; }\n    T take() { if (!value_) std::abort(); T result=std::move(*value_); value_.reset(); return result; }\n};\ntemplate<> class Result<void> {\n    bool ok_=true; std::string error_;\npublic:\n    static Result failure(std::string error) { Result r; r.ok_=false; r.error_=std::move(error); return r; }\n    explicit operator bool() const { return ok_; }\n    const std::string& error() const { return error_; }\n};\nnamespace detail {\nstruct Buffer {\n    ::EsBuffer* raw=nullptr;\n    ~Buffer() { ethersync_buffer_free(raw); }\n    Buffer()=default;\n    Buffer(const Buffer&)=delete;\n    Buffer& operator=(const Buffer&)=delete;\n    std::string text() const {\n        auto size=ethersync_buffer_len(raw);\n        return size ? std::string(reinterpret_cast<const char*>(ethersync_buffer_data(raw)), size) : std::string();\n    }\n    std::vector<uint8_t> bytes() const {\n        auto size=ethersync_buffer_len(raw);\n        auto data=ethersync_buffer_data(raw);\n        return size ? std::vector<uint8_t>(data, data+size) : std::vector<uint8_t>();\n    }\n};\n}\n";

/// The name of the C function that frees a handle of type `owner`.
pub open spec fn cpp_free(owner: Seq<char>) -> Seq<char> {
    "ethersync_"@ + unicode_lower_text(owner) + "_free"@
}

/// The opening of the C++ class that owns a handle of type `owner`.
#[verifier::opaque]
pub open spec fn cpp_class_head(owner: Seq<char>) -> Seq<char> {
    let free = cpp_free(owner);
    "class "@ + (owner) + " {\n    ::"@ + (owner) + "* raw_;\npublic:\n    explicit "@ + (owner) + "(::"@ + (owner) + "* raw):raw_(raw) {}\n    ~"@ + (owner) + "() { "@ + (free) + "(raw_); }\n    "@ + (owner) + "("@ + (owner) + "&& other) noexcept:raw_(std::exchange(other.raw_,nullptr)) {}\n    "@ + (owner) + "& operator=("@ + (owner) + "&& other) noexcept {\n        if(this!=&other) { "@ + (free) + "(raw_); raw_=std::exchange(other.raw_,nullptr); }\n        return *this;\n    }\n    "@ + (owner) + "(const "@ + (owner) + "&)=delete;\n    "@ + (owner) + "& operator=(const "@ + (owner) + "&)=delete;\n    ::"@ + (owner) + "* raw() const { return raw_; }\n"@
}

fn push_class_head(r: &mut String, owner: &str)
    ensures
        final(r)@ == old(r)@ + cpp_class_head(owner@),
{
    proof {
        reveal(cpp_class_head);
    }
    let mut free = String::new();
    push_str(&mut free, "ethersync_");
    let lower = lower_text(owner);
    push_str(&mut free, lower.as_str());
    push_str(&mut free, "_free");
    assert(free@ =~= cpp_free(owner@));
    let ghost start = r@;
    push_str(r, "class ");
    push_str(r, owner);
    push_str(r, " {\n    ::");
    push_str(r, owner);
    push_str(r, "* raw_;\npublic:\n    explicit ");
    push_str(r, owner);
    push_str(r, "(::");
    push_str(r, owner);
    push_str(r, "* raw):raw_(raw) {}\n    ~");
    push_str(r, owner);
    push_str(r, "() { ");
    push_str(r, free.as_str());
    push_str(r, "(raw_); }\n    ");
    push_str(r, owner);
    push_str(r, "(");
    push_str(r, owner);
    push_str(r, "&& other) noexcept:raw_(std::exchange(other.raw_,nullptr)) {}\n    ");
    push_str(r, owner);
    push_str(r, "& operator=(");
    push_str(r, owner);
    push_str(r, "&& other) noexcept {\n        if(this!=&other) { ");
    push_str(r, free.as_str());
    push_str(r, "(raw_); raw_=std::exchange(other.raw_,nullptr); }\n        return *this;\n    }\n    ");
    push_str(r, owner);
    push_str(r, "(const ");
    push_str(r, owner);
    push_str(r, "&)=delete;\n    ");
    push_str(r, owner);
    push_str(r, "& operator=(const ");
    push_str(r, owner);
    push_str(r, "&)=delete;\n    ::");
    push_str(r, owner);
    push_str(r, "* raw() const { return raw_; }\n");
    assert(r@ =~= start + cpp_class_head(owner@));
}

/// The first argument's type, if any.
pub open spec fn first_arg(f: FnSig) -> Option<Seq<char>> {
    if f.args@.len() > 0 {
        Some(f.args@[0].1@)
    } else {
        None
    }
}

/// How many leading arguments the receiver takes: one for an instance method.
pub open spec fn receiver_count(instance: bool) -> int {
    if instance {
        1
    } else {
        0
    }
}

/// The C++ result type of `f`.
#[verifier::opaque]
pub open spec fn cpp_rt(f: FnSig) -> Seq<char> {
    if f.fallible {
        "Result<"@ + typ_spec(f.ret@) + ">"@
    } else {
        typ_spec(f.ret@)
    }
}

/// The parameter list of `f` as a method of `owner`: the receiver is left out.
#[verifier::opaque]
pub open spec fn cpp_params(f: FnSig, owner: Seq<char>) -> Seq<char> {
    let k = receiver_count(instance_spec(first_arg(f), owner));
    joined(
        Seq::new(
            (f.args@.len() - k) as nat,
            |i: int| typ_spec(f.args@[i + k].1@) + " "@ + f.args@[i + k].0@,
        ),
        ", "@,
    )
}

/// The method declaration of `f` in the class of `owner`.
#[verifier::opaque]
pub open spec fn cpp_decl(f: FnSig, owner: Seq<char>) -> Seq<char> {
    (if instance_spec(first_arg(f), owner) {
        Seq::empty()
    } else {
        "static"@
    }) + " "@ + cpp_rt(f) + " "@ + method_spec(f.name@, owner) + "("@ + cpp_params(f, owner)
        + ");\n"@
}

/// The C argument the wrapper passes for the `i`-th argument of `f`.
pub open spec fn cpp_callarg(opaque: Seq<String>, f: FnSig, owner: Seq<char>, i: int) -> Seq<char> {
    let n = f.args@[i].0@;
    let t = f.args@[i].1@;
    if instance_spec(first_arg(f), owner) && i == 0 {
        "raw_"@
    } else if named(opaque, strip_all(strip_all(t, amp()), mut_word())) {
        n + ".raw()"@
    } else if t == "&str"@ {
        "reinterpret_cast<const uint8_t*>("@ + n + ".data()), "@ + n + ".size()"@
    } else if t == "&[u8]"@ {
        n + ".data(), "@ + n + ".size()"@
    } else {
        n
    }
}

/// Whether `t` is returned through a library-owned buffer.
pub open spec fn buffered(t: Seq<char>) -> bool {
    t == "String"@ || t == "Vec<u8>"@
}

/// The local that receives `f`'s value.
#[verifier::opaque]
pub open spec fn cpp_value_decl(opaque: Seq<String>, f: FnSig) -> Seq<char> {
    if f.ret@ == "()"@ {
        Seq::empty()
    } else if buffered(f.ret@) {
        "detail::Buffer value;\n"@
    } else {
        (if named(opaque, f.ret@) {
            "::"@ + f.ret@ + "*"@
        } else {
            typ_spec(f.ret@)
        }) + " value{};\n"@
    }
}

/// The out-arguments after `f`'s own: the value, if any, and the error.
pub open spec fn cpp_out_args(f: FnSig) -> Seq<Seq<char>> {
    (if f.ret@ == "()"@ {
        Seq::empty()
    } else if buffered(f.ret@) {
        seq!["&value.raw"@]
    } else {
        seq!["&value"@]
    }) + seq!["&error.raw"@]
}

#[verifier::opaque]
pub open spec fn cpp_callargs(opaque: Seq<String>, f: FnSig, owner: Seq<char>) -> Seq<char> {
    joined(
        Seq::new(f.args@.len(), |i: int| cpp_callarg(opaque, f, owner, i)) + cpp_out_args(f),
        ","@,
    )
}

/// The value the method returns, converted from the C result.
#[verifier::opaque]
pub open spec fn cpp_converted(opaque: Seq<String>, f: FnSig) -> Seq<char> {
    if named(opaque, f.ret@) {
        f.ret@ + "(value)"@
    } else if f.ret@ == "String"@ {
        "value.text()"@
    } else if f.ret@ == "Vec<u8>"@ {
        "value.bytes()"@
    } else {
        "value"@
    }
}

#[verifier::opaque]
pub open spec fn cpp_return(opaque: Seq<String>, f: FnSig) -> Seq<char> {
    if f.ret@ != "()"@ {
        "return "@ + (if f.fallible {
            cpp_rt(f) + "("@ + cpp_converted(opaque, f) + ")"@
        } else {
            cpp_converted(opaque, f)
        }) + ";\n"@
    } else if f.fallible {
        "return Result<void>();\n"@
    } else {
        Seq::empty()
    }
}

/// How the wrapper reacts to a failed call.
#[verifier::opaque]
pub open spec fn cpp_status(f: FnSig) -> Seq<char> {
    if f.fallible {
        "if(status) return "@ + cpp_rt(f) + "::failure(error.text());\n"@
    } else {
        "if(status) std::abort();\n"@
    }
}

/// The inline definition of `f` as a method of `owner`.
#[verifier::opaque]
pub open spec fn cpp_body(opaque: Seq<String>, f: FnSig, owner: Seq<char>) -> Seq<char> {
    "inline "@ + cpp_rt(f) + " "@ + owner + "::"@ + method_spec(f.name@, owner) + "("@ + cpp_params(
        f,
        owner,
    ) + ") {\ndetail::Buffer error;\n"@ + cpp_value_decl(opaque, f) + "auto status=::ethersync_"@
        + f.name@ + "("@ + cpp_callargs(opaque, f, owner) + ");\n"@ + cpp_status(f) + cpp_return(
        opaque,
        f,
    ) + "}\n"@
}

/// Whether the `k`-th opaque type owns `f` (compared by name).
pub open spec fn owned_by(opaque: Seq<String>, f: FnSig, k: int) -> bool {
    best_owner(opaque, f.name@, opaque.len()) matches Some(j) && opaque[j]@ == opaque[k]@
}

/// Every function has an owning handle, or there is no handle to generate.
pub open spec fn all_owned(opaque: Seq<String>, fns: Seq<FnSig>) -> bool {
    opaque.len() == 0 || forall|j: int|
        0 <= j < fns.len() ==> #[trigger] best_owner(opaque, fns[j].name@, opaque.len()) is Some
}

/// The class of the `k`-th opaque type, with the declarations of the functions it owns.
pub open spec fn cpp_class(opaque: Seq<String>, fns: Seq<FnSig>, k: int) -> Seq<char> {
    cpp_class_head(opaque[k]@) + concat(
        Seq::new(
            fns.len(),
            |j: int|
                if owned_by(opaque, fns[j], k) {
                    cpp_decl(fns[j], opaque[k]@)
                } else {
                    Seq::empty()
                },
        ),
    ) + "};\n"@
}

/// The definitions of the methods of the `k`-th opaque type.
pub open spec fn cpp_bodies(opaque: Seq<String>, fns: Seq<FnSig>, k: int) -> Seq<char> {
    concat(
        Seq::new(
            fns.len(),
            |j: int|
                if owned_by(opaque, fns[j], k) {
                    cpp_body(opaque, fns[j], opaque[k]@)
                } else {
                    Seq::empty()
                },
        ),
    )
}

/// The C++ header: ownership wrappers over the C ABI for every opaque type, in the order
/// given, with the records as aliases of their C structs.
pub open spec fn cpp_header_spec(opaque: Seq<String>, records: Seq<Record>, fns: Seq<FnSig>) -> Seq<char> {
    CPP_PRELUDE@ + concat(Seq::new(opaque.len(), |k: int| "class "@ + opaque[k]@ + ";\n"@)) + concat(
        Seq::new(records.len(), |k: int| "using "@ + records[k].0@ + " = ::"@ + records[k].0@ + ";\n"@),
    ) + concat(Seq::new(opaque.len(), |k: int| cpp_class(opaque, fns, k))) + concat(
        Seq::new(opaque.len(), |k: int| cpp_bodies(opaque, fns, k)),
    ) + "}\n"@
}

pub(crate) proof fn lemma_best_owner(opaque: Seq<String>, name: Seq<char>, n: nat)
    requires
        n <= opaque.len(),
    ensures
        best_owner(opaque, name, n) matches Some(j) ==> 0 <= j < n && owns(opaque, j, name),
    decreases n,
{
    if n > 0 {
        lemma_best_owner(opaque, name, (n - 1) as nat);
    }
}

/// The owning handle of every function, or none when some function has none.
pub(crate) fn owners_of(opaque: &Vec<String>, fns: &Vec<FnSig>) -> (r: Option<Vec<usize>>)
    ensures
        r is Some <==> forall|j: int|
            0 <= j < fns@.len() ==> #[trigger] best_owner(opaque@, fns@[j].name@, opaque@.len())
                is Some,
        r matches Some(v) ==> v@.len() == fns@.len() && forall|j: int|
            0 <= j < fns@.len() ==> best_owner(opaque@, fns@[j].name@, opaque@.len()) == Some(
                #[trigger] v@[j] as int,
            ),
{
    let mut v: Vec<usize> = Vec::new();
    let mut j: usize = 0;
    while j < fns.len()
        invariant
            j <= fns@.len(),
            v@.len() == j,
            forall|i: int|
                0 <= i < j ==> best_owner(opaque@, fns@[i].name@, opaque@.len()) == Some(
                    #[trigger] v@[i] as int,
                ),
        decreases fns@.len() - j,
    {
        match owner_of(fns[j].name.as_str(), opaque.as_slice()) {
            Some(k) => v.push(k),
            None => return None,
        }
        j = j + 1;
    }
    assert forall|j: int| 0 <= j < fns@.len() implies #[trigger] best_owner(
        opaque@,
        fns@[j].name@,
        opaque@.len(),
    ) is Some by {
        assert(best_owner(opaque@, fns@[j].name@, opaque@.len()) == Some(v@[j] as int));
    }
    Some(v)
}

fn push_params(r: &mut String, f: &FnSig, owner: &str, instance: bool)
    requires
        instance == instance_spec(first_arg(*f), owner@),
    ensures
        final(r)@ == old(r)@ + cpp_params(*f, owner@),
{
    proof {
        reveal(cpp_params);
    }
    let k: usize = if instance {
        1
    } else {
        0
    };
    let n = f.args.len();
    let mut parts: Vec<String> = Vec::new();
    let mut i: usize = k;
    while i < n
        invariant
            k <= i <= n,
            n == f.args@.len(),
            k == receiver_count(instance),
            parts@.len() == i - k,
            forall|j: int|
                0 <= j < i - k ==> (#[trigger] parts@[j])@ == typ_spec(f.args@[j + k].1@) + " "@
                    + f.args@[j + k].0@,
        decreases n - i,
    {
        let mut p = typ(f.args[i].1.as_str());
        push_str(&mut p, " ");
        push_str(&mut p, f.args[i].0.as_str());
        parts.push(p);
        i = i + 1;
    }
    assert(views(parts@) =~= Seq::new(
        (f.args@.len() - k) as nat,
        |i: int| typ_spec(f.args@[i + k].1@) + " "@ + f.args@[i + k].0@,
    ));
    push_joined(r, &parts, ", ");
}

fn push_decl(r: &mut String, f: &FnSig, owner: &str, instance: bool)
    requires
        instance == instance_spec(first_arg(*f), owner@),
        owner_prefix(owner@).is_prefix_of(f.name@),
    ensures
        final(r)@ == old(r)@ + cpp_decl(*f, owner@),
{
    proof {
        reveal(cpp_decl);
    }
    let ghost start = r@;
    if !instance {
        push_str(r, "static");
    }
    push_str(r, " ");
    push_rt(r, f);
    push_str(r, " ");
    let method = method_name(f.name.as_str(), owner);
    push_str(r, method.as_str());
    push_str(r, "(");
    push_params(r, f, owner, instance);
    push_str(r, ");\n");
    assert(r@ =~= start + cpp_decl(*f, owner@));
}

fn push_rt(r: &mut String, f: &FnSig)
    ensures
        final(r)@ == old(r)@ + cpp_rt(*f),
{
    proof {
        reveal(cpp_rt);
    }
    let ghost start = r@;
    let t = typ(f.ret.as_str());
    if f.fallible {
        push_str(r, "Result<");
        push_str(r, t.as_str());
        push_str(r, ">");
    } else {
        push_str(r, t.as_str());
    }
    assert(r@ =~= start + cpp_rt(*f));
}

fn callarg(opaque: &Vec<String>, f: &FnSig, owner: &str, instance: bool, i: usize) -> (r: String)
    requires
        instance == instance_spec(first_arg(*f), owner@),
        i < f.args@.len(),
    ensures
        r@ == cpp_callarg(opaque@, *f, owner@, i as int),
{
    let n = f.args[i].0.as_str();
    let t = f.args[i].1.as_str();
    let mut r = String::new();
    if instance && i == 0 {
        push_str(&mut r, "raw_");
    } else if contains_name(opaque.as_slice(), base(t)) {
        push_str(&mut r, n);
        push_str(&mut r, ".raw()");
    } else if same_text(t, "&str") {
        push_str(&mut r, "reinterpret_cast<const uint8_t*>(");
        push_str(&mut r, n);
        push_str(&mut r, ".data()), ");
        push_str(&mut r, n);
        push_str(&mut r, ".size()");
    } else if same_text(t, "&[u8]") {
        push_str(&mut r, n);
        push_str(&mut r, ".data(), ");
        push_str(&mut r, n);
        push_str(&mut r, ".size()");
    } else {
        push_str(&mut r, n);
    }
    assert(r@ =~= cpp_callarg(opaque@, *f, owner@, i as int));
    r
}

fn push_callargs(r: &mut String, opaque: &Vec<String>, f: &FnSig, owner: &str, instance: bool)
    requires
        instance == instance_spec(first_arg(*f), owner@),
    ensures
        final(r)@ == old(r)@ + cpp_callargs(opaque@, *f, owner@),
{
    proof {
        reveal(cpp_callargs);
    }
    let n = f.args.len();
    let mut parts: Vec<String> = Vec::new();
    let mut i: usize = 0;
    while i < n
        invariant
            i <= n,
            n == f.args@.len(),
            instance == instance_spec(first_arg(*f), owner@),
            parts@.len() == i,
            forall|j: int|
                0 <= j < i ==> (#[trigger] parts@[j])@ == cpp_callarg(opaque@, *f, owner@, j),
        decreases n - i,
    {
        parts.push(callarg(opaque, f, owner, instance, i));
        i = i + 1;
    }
    let unit = same_text(f.ret.as_str(), "()");
    let buf = same_text(f.ret.as_str(), "String") || same_text(f.ret.as_str(), "Vec<u8>");
    if !unit {
        if buf {
            parts.push("&value.raw".to_owned());
        } else {
            parts.push("&value".to_owned());
        }
    }
    parts.push("&error.raw".to_owned());
    assert(views(parts@) =~= Seq::new(f.args@.len(), |i: int| cpp_callarg(opaque@, *f, owner@, i))
        + cpp_out_args(*f));
    push_joined(r, &parts, ",");
}

fn push_value_decl(r: &mut String, opaque: &Vec<String>, f: &FnSig)
    ensures
        final(r)@ == old(r)@ + cpp_value_decl(opaque@, *f),
{
    proof {
        reveal(cpp_value_decl);
    }
    let ghost a = r@;
    let ret = f.ret.as_str();
    if !same_text(ret, "()") {
        if same_text(ret, "String") || same_text(ret, "Vec<u8>") {
            push_str(r, "detail::Buffer value;\n");
        } else {
            if contains_name(opaque.as_slice(), ret) {
                push_str(r, "::");
                push_str(r, ret);
                push_str(r, "*");
            } else {
                let t = typ(ret);
                push_str(r, t.as_str());
            }
            push_str(r, " value{};\n");
        }
    }
    assert(r@ =~= a + cpp_value_decl(opaque@, *f));
}

fn push_status(r: &mut String, f: &FnSig)
    ensures
        final(r)@ == old(r)@ + cpp_status(*f),
{
    proof {
        reveal(cpp_status);
    }
    let ghost b = r@;
    if f.fallible {
        push_str(r, "if(status) return ");
        push_rt(r, f);
        push_str(r, "::failure(error.text());\n");
    } else {
        push_str(r, "if(status) std::abort();\n");
    }
    assert(r@ =~= b + (if f.fallible {
        "if(status) return "@ + cpp_rt(*f) + "::failure(error.text());\n"@
    } else {
        "if(status) std::abort();\n"@
    }));
}

fn converted(opaque: &Vec<String>, f: &FnSig) -> (c: String)
    ensures
        c@ == cpp_converted(opaque@, *f),
{
    proof {
        reveal(cpp_converted);
    }
    let ret = f.ret.as_str();
    let mut c = String::new();
    if contains_name(opaque.as_slice(), ret) {
        push_str(&mut c, ret);
        push_str(&mut c, "(value)");
    } else if same_text(ret, "String") {
        push_str(&mut c, "value.text()");
    } else if same_text(ret, "Vec<u8>") {
        push_str(&mut c, "value.bytes()");
    } else {
        push_str(&mut c, "value");
    }
    assert(c@ =~= cpp_converted(opaque@, *f));
    c
}

fn push_return(r: &mut String, opaque: &Vec<String>, f: &FnSig)
    ensures
        final(r)@ == old(r)@ + cpp_return(opaque@, *f),
{
    proof {
        reveal(cpp_return);
    }
    let ghost c = r@;
    if !same_text(f.ret.as_str(), "()") {
        let v = converted(opaque, f);
        push_str(r, "return ");
        if f.fallible {
            push_rt(r, f);
            push_str(r, "(");
            push_str(r, v.as_str());
            push_str(r, ")");
        } else {
            push_str(r, v.as_str());
        }
        push_str(r, ";\n");
    } else if f.fallible {
        push_str(r, "return Result<void>();\n");
    }
    assert(r@ =~= c + cpp_return(opaque@, *f));
}

fn push_body(r: &mut String, opaque: &Vec<String>, f: &FnSig, owner: &str, instance: bool)
    requires
        instance == instance_spec(first_arg(*f), owner@),
        owner_prefix(owner@).is_prefix_of(f.name@),
    ensures
        final(r)@ == old(r)@ + cpp_body(opaque@, *f, owner@),
{
    proof {
        reveal(cpp_body);
    }
    let ghost start = r@;
    push_str(r, "inline ");
    push_rt(r, f);
    push_str(r, " ");
    push_str(r, owner);
    push_str(r, "::");
    let method = method_name(f.name.as_str(), owner);
    push_str(r, method.as_str());
    push_str(r, "(");
    push_params(r, f, owner, instance);
    push_str(r, ") {\ndetail::Buffer error;\n");
    push_value_decl(r, opaque, f);
    push_str(r, "auto status=::ethersync_");
    push_str(r, f.name.as_str());
    push_str(r, "(");
    push_callargs(r, opaque, f, owner, instance);
    push_str(r, ");\n");
    push_status(r, f);
    push_return(r, opaque, f);
    push_str(r, "}\n");
    assert(r@ =~= start + cpp_body(opaque@, *f, owner@));
}

/// The C++ header (`ethersync-client.hpp`) for the handles `opaque` and records `records`,
/// in the order given, and the API `functions`. Every function must have an owning
/// handle when there is any handle to generate; otherwise it is refused.
pub fn cpp_header(opaque: &Vec<String>, records: &Vec<Record>, functions: &Vec<FnSig>) -> (r: Result<
    String,
    String,
>)
    ensures
        match r {
            Ok(s) => all_owned(opaque@, functions@) && s@ == cpp_header_spec(
                opaque@,
                records@,
                functions@,
            ),
            Err(e) => !all_owned(opaque@, functions@) && e@ == "function needs an owning handle"@,
        },
{
    let owners = if opaque.len() > 0 {
        match owners_of(opaque, functions) {
            Some(v) => v,
            None => return Err("function needs an owning handle".to_owned()),
        }
    } else {
        Vec::new()
    };
    let ghost o = opaque@;
    let ghost fs = functions@;
    let mut s = CPP_PRELUDE.to_owned();
    let ghost s0 = s@;
    // forward declarations
    let ghost p1 = Seq::new(o.len(), |k: int| "class "@ + o[k]@ + ";\n"@);
    let mut k: usize = 0;
    assert(p1.take(0) =~= Seq::<Seq<char>>::empty());
    while k < opaque.len()
        invariant
            k <= o.len(),
            o == opaque@,
            p1 == Seq::new(o.len(), |k: int| "class "@ + o[k]@ + ";\n"@),
            s@ == s0 + concat(p1.take(k as int)),
        decreases o.len() - k,
    {
        proof {
            lemma_concat_step(p1, k as int);
        }
        push_str(&mut s, "class ");
        push_str(&mut s, opaque[k].as_str());
        push_str(&mut s, ";\n");
        k = k + 1;
        assert(s@ =~= s0 + concat(p1.take(k as int)));
    }
    assert(p1.take(k as int) =~= p1);
    let ghost s1 = s@;
    let ghost p2 = Seq::new(
        records@.len(),
        |k: int| "using "@ + records@[k].0@ + " = ::"@ + records@[k].0@ + ";\n"@,
    );
    let mut k: usize = 0;
    assert(p2.take(0) =~= Seq::<Seq<char>>::empty());
    while k < records.len()
        invariant
            k <= records@.len(),
            p2 == Seq::new(
                records@.len(),
                |k: int| "using "@ + records@[k].0@ + " = ::"@ + records@[k].0@ + ";\n"@,
            ),
            s@ == s1 + concat(p2.take(k as int)),
        decreases records@.len() - k,
    {
        proof {
            lemma_concat_step(p2, k as int);
        }
        push_str(&mut s, "using ");
        push_str(&mut s, records[k].0.as_str());
        push_str(&mut s, " = ::");
        push_str(&mut s, records[k].0.as_str());
        push_str(&mut s, ";\n");
        k = k + 1;
        assert(s@ =~= s1 + concat(p2.take(k as int)));
    }
    assert(p2.take(k as int) =~= p2);
    let ghost s2 = s@;
    let ghost p3 = Seq::new(o.len(), |k: int| cpp_class(o, fs, k));
    let ghost p4 = Seq::new(o.len(), |k: int| cpp_bodies(o, fs, k));
    let mut bodies = String::new();
    let mut k: usize = 0;
    assert(p3.take(0) =~= Seq::<Seq<char>>::empty());
    assert(p4.take(0) =~= Seq::<Seq<char>>::empty());
    while k < opaque.len()
        invariant
            k <= o.len(),
            o == opaque@,
            fs == functions@,
            o.len() > 0 ==> owners@.len() == fs.len() && forall|j: int|
                0 <= j < fs.len() ==> best_owner(o, fs[j].name@, o.len()) == Some(
                    #[trigger] owners@[j] as int,
                ),
            p3 == Seq::new(o.len(), |k: int| cpp_class(o, fs, k)),
            p4 == Seq::new(o.len(), |k: int| cpp_bodies(o, fs, k)),
            s@ == s2 + concat(p3.take(k as int)),
            bodies@ == concat(p4.take(k as int)),
        decreases o.len() - k,
    {
        proof {
            lemma_concat_step(p3, k as int);
            lemma_concat_step(p4, k as int);
        }
        let owner = opaque[k].as_str();
        let ghost sk = s@;
        let ghost bk = bodies@;
        push_class_head(&mut s, owner);
        let ghost sh = s@;
        let ghost pd = Seq::new(
            fs.len(),
            |j: int|
                if owned_by(o, fs[j], k as int) {
                    cpp_decl(fs[j], o[k as int]@)
                } else {
                    Seq::empty()
                },
        );
        let ghost pb = Seq::new(
            fs.len(),
            |j: int|
                if owned_by(o, fs[j], k as int) {
                    cpp_body(o, fs[j], o[k as int]@)
                } else {
                    Seq::empty()
                },
        );
        let mut j: usize = 0;
        assert(pd.take(0) =~= Seq::<Seq<char>>::empty());
        assert(pb.take(0) =~= Seq::<Seq<char>>::empty());
        while j < functions.len()
            invariant
                j <= fs.len(),
                k < o.len(),
                o == opaque@,
                fs == functions@,
                owner@ == o[k as int]@,
                owners@.len() == fs.len(),
                forall|i: int|
                    0 <= i < fs.len() ==> best_owner(o, fs[i].name@, o.len()) == Some(
                        #[trigger] owners@[i] as int,
                    ),
                pd == Seq::new(
                    fs.len(),
                    |j: int|
                        if owned_by(o, fs[j], k as int) {
                            cpp_decl(fs[j], o[k as int]@)
                        } else {
                            Seq::empty()
                        },
                ),
                pb == Seq::new(
                    fs.len(),
                    |j: int|
                        if owned_by(o, fs[j], k as int) {
                            cpp_body(o, fs[j], o[k as int]@)
                        } else {
                            Seq::empty()
                        },
                ),
                s@ == sh + concat(pd.take(j as int)),
                bodies@ == bk + concat(pb.take(j as int)),
            decreases fs.len() - j,
        {
            proof {
                lemma_concat_step(pd, j as int);
                lemma_concat_step(pb, j as int);
            }
            let f = &functions[j];
            let w = owners[j];
            proof {
                lemma_best_owner(o, fs[j as int].name@, o.len());
            }
            if same_text(opaque[w].as_str(), owner) {
                let first = if f.args.len() > 0 {
                    Some(f.args[0].1.as_str())
                } else {
                    None
                };
                let instance = is_instance(first, owner);
                assert(instance == instance_spec(first_arg(*f), owner@));
                push_decl(&mut s, f, owner, instance);
                push_body(&mut bodies, opaque, f, owner, instance);
            }
            j = j + 1;
            assert(s@ =~= sh + concat(pd.take(j as int)));
            assert(bodies@ =~= bk + concat(pb.take(j as int)));
        }
        assert(pd.take(j as int) =~= pd);
        assert(pb.take(j as int) =~= pb);
        push_str(&mut s, "};\n");
        assert(s@ =~= sk + cpp_class(o, fs, k as int));
        assert(bodies@ =~= bk + cpp_bodies(o, fs, k as int));
        k = k + 1;
        assert(s@ =~= s2 + concat(p3.take(k as int)));
        assert(bodies@ =~= concat(p4.take(k as int)));
    }
    assert(p3.take(k as int) =~= p3);
    assert(p4.take(k as int) =~= p4);
    push_str(&mut s, bodies.as_str());
    push_str(&mut s, "}\n");
    assert(s@ =~= cpp_header_spec(o, records@, fs));
    Ok(s)
}

} // verus!
