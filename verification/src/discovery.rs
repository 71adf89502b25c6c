//! What a leader advertises over mDNS and what a follower makes of an advertisement.
//! The daemon that registers and browses services is driven by the caller.
use vstd::prelude::*;

use crate::ids::{uuid_string, uuid_text};
use crate::options::{is_unspecified, unspecified, DiscoveredLeader, Endpoint, IpAddress, LeaderOptions};
use crate::text::{
    compare_text, hex_char, hex_lower, lemma_text_lt_irreflexive, lemma_text_lt_total,
    lemma_text_lt_transitive, push_str, text_lt,
};
use crate::tls::pin_valid;
use vstd::string::{StrSliceExecFns, StringSliceAdditionalSpecFns};
use vstd::utf8::{char_is_scalar, encode_scalar, encode_utf8};

verus! {

/// The service type leaders register.
pub const SERVICE_TYPE: &'static str = "_ethersync._udp.local.";

/// Bytes in the UTF-8 encoding of `c`.
pub open spec fn char_width(c: char) -> nat {
    if (c as u32) < 0x80 {
        1
    } else if (c as u32) < 0x800 {
        2
    } else if (c as u32) < 0x10000 {
        3
    } else {
        4
    }
}

/// Bytes in the UTF-8 encoding of `s`.
pub open spec fn utf8_len(s: Seq<char>) -> nat {
    encode_utf8(s).len()
}

proof fn lemma_scalar_width(c: char)
    ensures
        encode_scalar(c as u32).len() == char_width(c),
{
    char_is_scalar(c);
}

proof fn lemma_encode_concat(s: Seq<char>, t: Seq<char>)
    ensures
        encode_utf8(s + t) == encode_utf8(s) + encode_utf8(t),
    decreases s.len(),
{
    if s.len() == 0 {
        assert(s + t =~= t);
        assert(encode_utf8(s) + encode_utf8(t) =~= encode_utf8(t));
    } else {
        assert((s + t).drop_first() =~= s.drop_first() + t);
        assert((s + t)[0] == s[0]);
        lemma_encode_concat(s.drop_first(), t);
        assert(encode_utf8(s + t) =~= encode_utf8(s) + encode_utf8(t));
    }
}

/// Appending one character adds its width.
pub proof fn lemma_utf8_len_push(s: Seq<char>, c: char)
    ensures
        utf8_len(s.push(c)) == utf8_len(s) + char_width(c),
{
    let one = seq![c];
    lemma_encode_concat(s, one);
    assert(s.push(c) =~= s + one);
    assert(one.drop_first() =~= Seq::<char>::empty());
    assert(encode_utf8(Seq::<char>::empty()) =~= Seq::<u8>::empty());
    assert(one[0] == c);
    assert(encode_utf8(one) == encode_scalar(one[0] as u32) + encode_utf8(one.drop_first()));
    lemma_scalar_width(c);
    assert(encode_utf8(one).len() == char_width(c));
}

/// Concatenation adds lengths.
pub proof fn lemma_utf8_len_concat(s: Seq<char>, t: Seq<char>)
    ensures
        utf8_len(s + t) == utf8_len(s) + utf8_len(t),
{
    lemma_encode_concat(s, t);
}

/// Text of ASCII characters takes one byte per character.
proof fn lemma_ascii_len(s: Seq<char>)
    requires
        forall|i: int| 0 <= i < s.len() ==> (#[trigger] s[i] as u32) < 0x80,
    ensures
        utf8_len(s) == s.len(),
    decreases s.len(),
{
    if s.len() > 0 {
        let init = s.drop_last();
        assert forall|i: int| 0 <= i < init.len() implies (#[trigger] init[i] as u32) < 0x80 by {
            assert(init[i] == s[i]);
        }
        lemma_ascii_len(init);
        assert(init.push(s.last()) =~= s);
        lemma_utf8_len_push(init, s.last());
    }
}

proof fn lemma_hex_ascii(b: Seq<u8>)
    ensures
        hex_lower(b).len() == 2 * b.len(),
        forall|i: int| 0 <= i < hex_lower(b).len() ==> (#[trigger] hex_lower(b)[i] as u32) < 0x80,
{
    crate::text::lemma_hex_lower_digits(b);
    assert forall|i: int| 0 <= i < hex_lower(b).len() implies (#[trigger] hex_lower(b)[i] as u32)
        < 0x80 by {
        assert(crate::text::hex_digit_char(hex_lower(b)[i]));
    }
}

/// The length of the longest prefix of `name`, from `k` characters on, whose UTF-8
/// encoding takes at most `limit` bytes.
pub open spec fn longest_within(name: Seq<char>, limit: nat, k: nat) -> nat
    decreases name.len() - k,
{
    if k < name.len() && utf8_len(name.take(k + 1 as int)) <= limit {
        longest_within(name, limit, k + 1)
    } else {
        k
    }
}

/// The longest prefix of `name` that fits in `limit` bytes of UTF-8, whole characters only.
fn prefix_within(name: &str, limit: usize) -> (k: usize)
    ensures
        k == longest_within(name@, limit as nat, 0),
        k <= name@.len(),
        utf8_len(name@.take(k as int)) <= limit,
{
    let n = name.unicode_len();
    let mut k: usize = 0;
    let mut bytes: usize = 0;
    assert(name@.take(0) =~= Seq::<char>::empty());
    while k < n
        invariant
            n == name@.len(),
            k <= n,
            bytes == utf8_len(name@.take(k as int)),
            bytes <= limit,
            longest_within(name@, limit as nat, 0) == longest_within(name@, limit as nat, k as nat),
        decreases n - k,
    {
        let c = name.get_char(k);
        let w: usize = if (c as u32) < 0x80 {
            1
        } else if (c as u32) < 0x800 {
            2
        } else if (c as u32) < 0x10000 {
            3
        } else {
            4
        };
        proof {
            assert(name@.take(k + 1) =~= name@.take(k as int).push(c));
            lemma_utf8_len_push(name@.take(k as int), c);
        }
        if w > limit - bytes {
            return k;
        }
        bytes = bytes + w;
        k = k + 1;
    }
    k
}

/// The mDNS instance name a leader named `name` advertises for `session`: the name cut to
/// 54 bytes of whole characters, a hyphen, and the first 8 digits of the session's UUID.
pub open spec fn instance_spec(name: Seq<char>, session: Seq<u8>) -> Seq<char> {
    name.take(longest_within(name, 54, 0) as int) + seq!['-'] + uuid_text(session).take(8)
}

/// The host name a leader advertises for `session`.
pub open spec fn host_spec(session: Seq<u8>) -> Seq<char> {
    "ethersync-"@ + uuid_text(session) + ".local."@
}

/// The instance name to advertise; it always fits a DNS label of 63 bytes, so duplicate
/// display names stay distinct by session without being refused.
pub fn advertised_instance(name: &str, session: [u8; 16]) -> (r: String)
    ensures
        r@ == instance_spec(name@, session@),
        utf8_len(r@) <= 63,
{
    let k = prefix_within(name, 54);
    let id = uuid_string(session);
    proof {
        lemma_hex_ascii(session@.subrange(0, 4));
        assert(uuid_text(session@).take(8) =~= hex_lower(session@.subrange(0, 4)));
    }
    let mut r = String::new();
    push_str(&mut r, name.substring_char(0, k));
    push_str(&mut r, "-");
    push_str(&mut r, id.as_str().substring_char(0, 8));
    proof {
        reveal_strlit("-");
        let head = name@.take(k as int);
        let tail = uuid_text(session@).take(8);
        assert(name@.subrange(0, k as int) =~= head);
        assert(r@ =~= head + seq!['-'] + tail);
        lemma_ascii_len(tail);
        lemma_utf8_len_concat(head + seq!['-'], tail);
        lemma_utf8_len_push(head, '-');
        assert(head + seq!['-'] =~= head.push('-'));
    }
    r
}

/// The host name to advertise.
pub fn advertised_host(session: [u8; 16]) -> (r: String)
    ensures
        r@ == host_spec(session@),
{
    let id = uuid_string(session);
    let mut r = String::new();
    push_str(&mut r, "ethersync-");
    push_str(&mut r, id.as_str());
    push_str(&mut r, ".local.");
    r
}

/// The TXT properties of an advertisement: identity, display name, protocol version,
/// certificate fingerprint and transport.
pub open spec fn properties_spec(identity: Seq<char>, name: Seq<char>, fingerprint: Seq<char>) -> Seq<
    (Seq<char>, Seq<char>),
> {
    seq![
        ("id"@, identity),
        ("name"@, name),
        ("v"@, "1"@),
        ("fp"@, fingerprint),
        ("transport"@, "moq-lite-05"@),
    ]
}

/// The views of a list of text pairs.
pub open spec fn pairs_view(p: Seq<(String, String)>) -> Seq<(Seq<char>, Seq<char>)> {
    p.map_values(|x: (String, String)| (x.0@, x.1@))
}

fn pair(key: &str, value: &str) -> (r: (String, String))
    ensures
        r.0@ == key@,
        r.1@ == value@,
{
    (key.to_owned(), value.to_owned())
}

/// The service a leader registers over mDNS.
pub struct AdvertisementPlan {
    /// The instance name, cut to fit a DNS label.
    pub instance: String,
    /// The host name, unique to the session.
    pub host: String,
    /// The addresses to advertise; none means the current interface addresses, followed
    /// as they change.
    pub addresses: Vec<IpAddress>,
    /// The port followers connect to.
    pub port: u16,
    pub properties: Vec<(String, String)>,
    /// The only interface to advertise on, by index, when the leader is bound to a scoped
    /// IPv6 address.
    pub interface_v6: Option<u32>,
    /// Whether automatic publication is limited to IPv4 interfaces, as the listener of an
    /// IPv4 wildcard only hears IPv4.
    pub ipv4_only: bool,
}

/// The addresses a leader advertises: those configured, or else its bind address unless
/// that is the wildcard.
pub open spec fn advertised_addresses(options: LeaderOptions) -> Seq<IpAddress> {
    if options.discovery.addresses@.len() == 0 && !unspecified(options.bind.ip) {
        seq![options.bind.ip]
    } else {
        options.discovery.addresses@
    }
}

/// The service a leader with `options`, listening on `port` under `session` with the
/// certificate `fingerprint`, registers.
pub fn advertisement(options: &LeaderOptions, session: [u8; 16], fingerprint: &str, port: u16) -> (r:
    AdvertisementPlan)
    ensures
        r.instance@ == instance_spec(options.name@, session@),
        r.host@ == host_spec(session@),
        r.addresses@ == advertised_addresses(*options),
        r.port == port,
        pairs_view(r.properties@) == properties_spec(options.identity@, options.name@, fingerprint@),
        r.interface_v6 == (if options.bind.ip is V6 && options.bind.scope_id != 0 {
            Some(options.bind.scope_id)
        } else {
            None
        }),
        r.ipv4_only == (advertised_addresses(*options).len() == 0 && options.bind.ip is V4),
{
    let mut addresses = options.discovery.addresses.clone();
    proof {
        assert(addresses@ == options.discovery.addresses@) by {
            assert(addresses@ =~= options.discovery.addresses@);
        }
    }
    if addresses.len() == 0 && !is_unspecified(&options.bind.ip) {
        addresses.push(options.bind.ip);
        assert(addresses@ =~= seq![options.bind.ip]);
    }
    let mut properties: Vec<(String, String)> = Vec::new();
    properties.push(pair("id", options.identity.as_str()));
    properties.push(pair("name", options.name.as_str()));
    properties.push(pair("v", "1"));
    properties.push(pair("fp", fingerprint));
    properties.push(pair("transport", "moq-lite-05"));
    assert(pairs_view(properties@) =~= properties_spec(options.identity@, options.name@, fingerprint@));
    let interface_v6 = match options.bind.ip {
        IpAddress::V6(_) => if options.bind.scope_id != 0 {
            Some(options.bind.scope_id)
        } else {
            None
        },
        IpAddress::V4(_) => None,
    };
    let ipv4_only = addresses.len() == 0 && match options.bind.ip {
        IpAddress::V4(_) => true,
        IpAddress::V6(_) => false,
    };
    AdvertisementPlan {
        instance: advertised_instance(options.name.as_str(), session),
        host: advertised_host(session),
        addresses,
        port,
        properties,
        interface_v6,
        ipv4_only,
    }
}

/// Whether `c` is an ASCII decimal digit.
pub open spec fn is_digit(c: char) -> bool {
    '0' <= c <= '9'
}

/// The value of a string of decimal digits.
pub open spec fn digits_value(s: Seq<char>) -> nat
    decreases s.len(),
{
    if s.len() == 0 {
        0
    } else {
        digits_value(s.drop_last()) * 10 + (s.last() as nat - 48) as nat
    }
}

/// Whether every character of `d` is a decimal digit.
pub open spec fn all_digits(d: Seq<char>) -> bool {
    forall|i: int| 0 <= i < d.len() ==> is_digit(#[trigger] d[i])
}

/// What `str::parse::<u32>` gives for `s`: an optional `+` followed by one or more decimal
/// digits whose value fits in 32 bits; anything else is an error.
pub open spec fn parse_u32_spec(s: Seq<char>) -> Option<u32> {
    let d = if s.len() > 0 && s[0] == '+' {
        s.drop_first()
    } else {
        s
    };
    if d.len() > 0 && all_digits(d) && digits_value(d) <= u32::MAX {
        Some(digits_value(d) as u32)
    } else {
        None
    }
}

/// A string of digits is worth at least any of its prefixes.
proof fn lemma_digits_prefix(d: Seq<char>, i: int)
    requires
        0 <= i <= d.len(),
        all_digits(d),
    ensures
        digits_value(d.take(i)) <= digits_value(d),
    decreases d.len() - i,
{
    if i < d.len() {
        lemma_digits_prefix(d, i + 1);
        assert(d.take(i + 1).drop_last() =~= d.take(i));
    } else {
        assert(d.take(i) =~= d);
    }
}

/// `str::parse::<u32>` with its error dropped, as the standard library documents it for
/// unsigned integers: an optional `+` sign followed by only digits, within range.
fn parse_u32(s: &str) -> (r: Option<u32>)
    ensures
        r == parse_u32_spec(s@),
{
    let n = s.unicode_len();
    let start: usize = if n > 0 && s.get_char(0) == '+' {
        1
    } else {
        0
    };
    let ghost d = if s@.len() > 0 && s@[0] == '+' {
        s@.drop_first()
    } else {
        s@
    };
    assert(d =~= s@.skip(start as int));
    if start == n {
        return None;
    }
    let mut v: u64 = 0;
    let mut i: usize = start;
    while i < n
        invariant
            start <= i <= n,
            n == s@.len(),
            d == s@.skip(start as int),
            d == (if s@.len() > 0 && s@[0] == '+' {
                s@.drop_first()
            } else {
                s@
            }),
            d.len() > 0,
            v == digits_value(d.take(i - start)),
            v <= u32::MAX,
            forall|k: int| 0 <= k < i - start ==> is_digit(#[trigger] d[k]),
        decreases n - i,
    {
        let c = s.get_char(i);
        assert(d[i - start] == c);
        if !('0' <= c && c <= '9') {
            assert(!is_digit(d[i - start]));
            assert(!all_digits(d));
            return None;
        }
        assert(d.take(i - start + 1).drop_last() =~= d.take(i - start));
        assert(d.take(i - start + 1).last() == c);
        let w = v * 10 + (c as u64 - 48);
        assert(digits_value(d.take(i - start + 1)) == w);
        i = i + 1;
        if w > 0xffff_ffff {
            proof {
                if all_digits(d) {
                    lemma_digits_prefix(d, i - start);
                }
            }
            return None;
        }
        v = w;
    }
    assert(d.take(n - start) =~= d);
    Some(v as u32)
}

/// The protocol version an advertisement claims: its `v` property, or 0 when that is
/// missing or not a number.
pub open spec fn advertised_version(version: Option<Seq<char>>) -> u32 {
    match version {
        Some(v) => match parse_u32_spec(v) {
            Some(n) => n,
            None => 0,
        },
        None => 0,
    }
}

/// What a follower makes of a resolved service: the leader it describes, or `None` when
/// its identity or certificate fingerprint is missing or the fingerprint is not 64
/// hexadecimal digits. The display name defaults to the identity.
pub fn discovered_leader(
    service_name: &str,
    identity: Option<&str>,
    fingerprint: Option<&str>,
    version: Option<&str>,
    name: Option<&str>,
    addresses: Vec<Endpoint>,
) -> (r: Option<DiscoveredLeader>)
    ensures
        r is Some <==> (identity is Some && fingerprint is Some && pin_valid(
            fingerprint->0.spec_bytes(),
        )),
        r matches Some(l) ==> {
            &&& l.service_name@ == service_name@
            &&& l.identity@ == identity->0@
            &&& l.name@ == (match name {
                Some(n) => n@,
                None => identity->0@,
            })
            &&& l.protocol_version == advertised_version(
                match version {
                    Some(v) => Some(v@),
                    None => None,
                },
            )
            &&& l.addresses@ == addresses@
            &&& l.fingerprint@ == fingerprint->0@
        },
{
    let identity = match identity {
        Some(i) => i,
        None => return None,
    };
    let fingerprint = match fingerprint {
        Some(f) => f,
        None => return None,
    };
    if crate::tls::validate_pin(fingerprint).is_err() {
        return None;
    }
    let protocol_version = match version {
        Some(v) => match parse_u32(v) {
            Some(n) => n,
            None => 0,
        },
        None => 0,
    };
    let display = match name {
        Some(n) => n,
        None => identity,
    };
    Some(
        DiscoveredLeader {
            service_name: service_name.to_owned(),
            identity: identity.to_owned(),
            name: display.to_owned(),
            protocol_version,
            addresses,
            fingerprint: fingerprint.to_owned(),
        },
    )
}

/// Service names strictly increase along the list.
pub open spec fn names_sorted(s: Seq<DiscoveredLeader>) -> bool {
    forall|i: int, j: int|
        0 <= i < j < s.len() ==> text_lt(
            #[trigger] s[i].service_name@,
            #[trigger] s[j].service_name@,
        )
}

/// A list in name order holds at most one entry per service name.
pub proof fn lemma_names_unique(s: Seq<DiscoveredLeader>)
    requires
        names_sorted(s),
    ensures
        forall|i: int, j: int|
            0 <= i < s.len() && 0 <= j < s.len() && i != j ==> #[trigger] s[i].service_name@
                != #[trigger] s[j].service_name@,
{
    assert forall|i: int, j: int|
        0 <= i < s.len() && 0 <= j < s.len() && i != j implies #[trigger] s[i].service_name@
            != #[trigger] s[j].service_name@ by {
        lemma_text_lt_irreflexive(s[i].service_name@);
        if i < j {
            assert(text_lt(s[i].service_name@, s[j].service_name@));
        } else {
            assert(text_lt(s[j].service_name@, s[i].service_name@));
        }
    }
}

/// Whether the list holds `l`.
pub open spec fn holds(s: Seq<DiscoveredLeader>, l: DiscoveredLeader) -> bool {
    exists|i: int| 0 <= i < s.len() && s[i] == l
}

/// The leaders a follower currently knows: one per full service name, in name order. A
/// resolved service replaces the entry of the same name; a removed one leaves.
pub struct DiscoveryTable {
    leaders: Vec<DiscoveredLeader>,
}

impl View for DiscoveryTable {
    type V = Seq<DiscoveredLeader>;

    closed spec fn view(&self) -> Seq<DiscoveredLeader> {
        self.leaders@
    }
}

/// Two leaders whose fields hold the same values.
pub open spec fn same_leader(a: DiscoveredLeader, b: DiscoveredLeader) -> bool {
    &&& a.service_name@ == b.service_name@
    &&& a.identity@ == b.identity@
    &&& a.name@ == b.name@
    &&& a.protocol_version == b.protocol_version
    &&& a.addresses@ == b.addresses@
    &&& a.fingerprint@ == b.fingerprint@
}

fn copy_leader(l: &DiscoveredLeader) -> (r: DiscoveredLeader)
    ensures
        same_leader(r, *l),
{
    let mut addresses: Vec<Endpoint> = Vec::new();
    let mut i: usize = 0;
    while i < l.addresses.len()
        invariant
            i <= l.addresses@.len(),
            addresses@ == l.addresses@.take(i as int),
        decreases l.addresses.len() - i,
    {
        addresses.push(l.addresses[i]);
        i = i + 1;
        assert(addresses@ =~= l.addresses@.take(i as int));
    }
    assert(l.addresses@.take(i as int) =~= l.addresses@);
    DiscoveredLeader {
        service_name: l.service_name.as_str().to_owned(),
        identity: l.identity.as_str().to_owned(),
        name: l.name.as_str().to_owned(),
        protocol_version: l.protocol_version,
        addresses,
        fingerprint: l.fingerprint.as_str().to_owned(),
    }
}

impl DiscoveryTable {
    #[verifier::type_invariant]
    spec fn sorted(self) -> bool {
        names_sorted(self.leaders@)
    }

    pub fn new() -> (t: Self)
        ensures
            t@ == Seq::<DiscoveredLeader>::empty(),
    {
        DiscoveryTable { leaders: Vec::new() }
    }

    /// A service was resolved as `leader`.
    pub fn resolved(&mut self, leader: DiscoveredLeader)
        ensures
            names_sorted(final(self)@),
            holds(final(self)@, leader),
            forall|e: DiscoveredLeader|
                holds(old(self)@, e) && e.service_name@ != leader.service_name@ ==> holds(
                    final(self)@,
                    e,
                ),
            forall|e: DiscoveredLeader|
                holds(final(self)@, e) ==> e == leader || (holds(old(self)@, e)
                    && e.service_name@ != leader.service_name@),
    {
        proof {
            use_type_invariant(&*self);
        }
        let ghost s0 = self.leaders@;
        let mut v: Vec<DiscoveredLeader> = Vec::new();
        std::mem::swap(&mut v, &mut self.leaders);
        let ghost key = leader.service_name@;
        let n = v.len();
        let mut i: usize = 0;
        while i < n
            invariant
                n == s0.len(),
                i <= n,
                v@ == s0,
                key == leader.service_name@,
                forall|j: int| 0 <= j < i ==> text_lt(#[trigger] s0[j].service_name@, key),
            ensures
                i <= n,
                v@ == s0,
                forall|j: int| 0 <= j < i ==> text_lt(#[trigger] s0[j].service_name@, key),
                i == n || !text_lt(s0[i as int].service_name@, key),
            decreases n - i,
        {
            let here = v[i].service_name.as_str();
            let wanted = leader.service_name.as_str();
            let c = compare_text(here, wanted);
            if c != -1 {
                break;
            }
            i = i + 1;
        }
        let same = i < n && compare_text(v[i].service_name.as_str(), leader.service_name.as_str())
            == 0;
        proof {
            assert forall|j: int| i <= j < n implies #[trigger] s0[j].service_name@ == key
                || text_lt(key, s0[j].service_name@) by {
                lemma_text_lt_total(s0[i as int].service_name@, key);
                if j > i && s0[i as int].service_name@ != key {
                    lemma_text_lt_transitive(key, s0[i as int].service_name@, s0[j].service_name@);
                }
                if j > i && s0[i as int].service_name@ == key {
                    assert(text_lt(s0[i as int].service_name@, s0[j].service_name@));
                }
            }
            assert forall|j: int| 0 <= j < n && j != i implies #[trigger] s0[j].service_name@
                != key by {
                if j < i {
                    lemma_text_lt_irreflexive(key);
                } else {
                    lemma_text_lt_irreflexive(key);
                    if s0[i as int].service_name@ == key {
                        assert(text_lt(s0[i as int].service_name@, s0[j].service_name@));
                    } else {
                        lemma_text_lt_total(s0[i as int].service_name@, key);
                        lemma_text_lt_transitive(key, s0[i as int].service_name@, s0[j].service_name@);
                    }
                }
            }
        }
        if same {
            v.remove(i);
            v.insert(i, leader);
            proof {
                let s1 = v@;
                assert(s1 =~= s0.update(i as int, leader));
                assert(s1[i as int] == leader);
                assert forall|a: int, b: int| 0 <= a < b < s1.len() implies text_lt(
                    #[trigger] s1[a].service_name@,
                    #[trigger] s1[b].service_name@,
                ) by {
                    if a == i as int {
                        assert(s0[a].service_name@ == key);
                    } else if b == i as int {
                        assert(s0[b].service_name@ == key);
                    }
                    assert(text_lt(s0[a].service_name@, s0[b].service_name@));
                }
                assert forall|e: DiscoveredLeader|
                    holds(s0, e) && e.service_name@ != key implies holds(s1, e) by {
                    let k = choose|k: int| 0 <= k < s0.len() && s0[k] == e;
                    assert(k != i);
                    assert(s1[k] == e);
                }
                assert forall|e: DiscoveredLeader| holds(s1, e) implies e == leader || (holds(s0, e)
                    && e.service_name@ != key) by {
                    let k = choose|k: int| 0 <= k < s1.len() && s1[k] == e;
                    if k != i {
                        assert(s0[k] == e);
                    }
                }
            }
        } else {
            v.insert(i, leader);
            proof {
                let s1 = v@;
                assert(s1 =~= s0.insert(i as int, leader));
                assert(s1[i as int] == leader);
                assert forall|j: int| i <= j < n implies text_lt(key, #[trigger] s0[j].service_name@) by {
                    if j == i {
                        lemma_text_lt_total(s0[i as int].service_name@, key);
                    }
                }
                assert forall|a: int, b: int| 0 <= a < b < s1.len() implies text_lt(
                    #[trigger] s1[a].service_name@,
                    #[trigger] s1[b].service_name@,
                ) by {
                    if a < i && b > i {
                        assert(s1[b] == s0[b - 1]);
                        lemma_text_lt_transitive(s0[a].service_name@, key, s0[b - 1].service_name@);
                    } else if a < i && b == i {
                    } else if a == i {
                        assert(s1[b] == s0[b - 1]);
                    } else if b < i {
                        assert(text_lt(s0[a].service_name@, s0[b].service_name@));
                    } else {
                        assert(s1[a] == s0[a - 1]);
                        assert(s1[b] == s0[b - 1]);
                        assert(text_lt(s0[a - 1].service_name@, s0[b - 1].service_name@));
                    }
                }
                assert forall|e: DiscoveredLeader|
                    holds(s0, e) && e.service_name@ != key implies holds(s1, e) by {
                    let k = choose|k: int| 0 <= k < s0.len() && s0[k] == e;
                    if k < i {
                        assert(s1[k] == e);
                    } else {
                        assert(s1[k + 1] == e);
                    }
                }
                assert forall|e: DiscoveredLeader| holds(s1, e) implies e == leader || (holds(s0, e)
                    && e.service_name@ != key) by {
                    let k = choose|k: int| 0 <= k < s1.len() && s1[k] == e;
                    if k < i {
                        assert(s0[k] == e);
                    } else if k > i {
                        assert(s0[k - 1] == e);
                    }
                }
            }
        }
        self.leaders = v;
    }

    /// The service named `service_name` was removed.
    pub fn removed(&mut self, service_name: &str)
        ensures
            names_sorted(final(self)@),
            forall|e: DiscoveredLeader|
                holds(final(self)@, e) <==> holds(old(self)@, e) && e.service_name@ != service_name@,
    {
        proof {
            use_type_invariant(&*self);
        }
        let ghost s0 = self.leaders@;
        let mut v: Vec<DiscoveredLeader> = Vec::new();
        std::mem::swap(&mut v, &mut self.leaders);
        let n = v.len();
        let mut i: usize = 0;
        while i < n && compare_text(v[i].service_name.as_str(), service_name) != 0
            invariant
                n == s0.len(),
                i <= n,
                v@ == s0,
                forall|j: int| 0 <= j < i ==> #[trigger] s0[j].service_name@ != service_name@,
            decreases n - i,
        {
            i = i + 1;
        }
        if i < n {
            v.remove(i);
            proof {
                let s1 = v@;
                assert(s1 =~= s0.remove(i as int));
                assert forall|j: int| 0 <= j < n && j != i implies #[trigger] s0[j].service_name@
                    != service_name@ by {
                    if j > i {
                        lemma_text_lt_irreflexive(service_name@);
                        assert(text_lt(s0[i as int].service_name@, s0[j].service_name@));
                    }
                }
                assert forall|a: int, b: int| 0 <= a < b < s1.len() implies text_lt(
                    #[trigger] s1[a].service_name@,
                    #[trigger] s1[b].service_name@,
                ) by {
                    let a0 = if a < i { a } else { a + 1 };
                    let b0 = if b < i { b } else { b + 1 };
                    assert(s1[a] == s0[a0]);
                    assert(s1[b] == s0[b0]);
                    assert(text_lt(s0[a0].service_name@, s0[b0].service_name@));
                }
                assert forall|e: DiscoveredLeader|
                    holds(s1, e) <==> holds(s0, e) && e.service_name@ != service_name@ by {
                    if holds(s1, e) {
                        let k = choose|k: int| 0 <= k < s1.len() && s1[k] == e;
                        let k0 = if k < i { k } else { k + 1 };
                        assert(s0[k0] == e);
                    }
                    if holds(s0, e) && e.service_name@ != service_name@ {
                        let k = choose|k: int| 0 <= k < s0.len() && s0[k] == e;
                        assert(k != i);
                        if k < i {
                            assert(s1[k] == e);
                        } else {
                            assert(s1[k - 1] == e);
                        }
                    }
                }
            }
        } else {
            proof {
                assert forall|e: DiscoveredLeader|
                    holds(s0, e) implies e.service_name@ != service_name@ by {
                    let k = choose|k: int| 0 <= k < s0.len() && s0[k] == e;
                }
            }
        }
        self.leaders = v;
    }

    /// Every service is forgotten.
    pub fn clear(&mut self)
        ensures
            final(self)@ == Seq::<DiscoveredLeader>::empty(),
    {
        self.leaders = Vec::new();
    }

    /// The current list, in name order.
    pub fn leaders(&self) -> (r: Vec<DiscoveredLeader>)
        ensures
            r@.len() == self@.len(),
            forall|i: int| 0 <= i < r@.len() ==> same_leader(#[trigger] r@[i], self@[i]),
            names_sorted(self@),
    {
        proof {
            use_type_invariant(self);
        }
        let mut r: Vec<DiscoveredLeader> = Vec::new();
        let mut i: usize = 0;
        while i < self.leaders.len()
            invariant
                i <= self@.len(),
                r@.len() == i,
                forall|j: int| 0 <= j < i ==> same_leader(#[trigger] r@[j], self@[j]),
            decreases self@.len() - i,
        {
            r.push(copy_leader(&self.leaders[i]));
            i = i + 1;
        }
        r
    }
}

} // verus!
