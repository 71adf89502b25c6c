//! Endpoints and the leader, follower and discovery options that foreign-language clients
//! build up before starting an engine. Addresses are held as numbers; parsing and
//! printing their text forms is left to the caller.
use vstd::prelude::*;

use crate::config::{default_timing, Timing, Trust};
use crate::tls::pin_valid;
use crate::ids::{uuid_string, uuid_text, uuid_v4};
use crate::timeline::SourceKind;
use crate::{error_text, Error, FrameFormat, Position, Rate};

verus! {

/// An IP address by its octets.
#[derive(Clone, Copy, Debug)]
pub enum IpAddress {
    V4([u8; 4]),
    V6([u8; 16]),
}

/// An IP endpoint: address, port and, for IPv6, the numeric interface scope.
#[derive(Clone, Copy, Debug)]
pub struct Endpoint {
    pub ip: IpAddress,
    pub port: u16,
    pub scope_id: u32,
}

/// The wildcard address of either family.
pub open spec fn unspecified(ip: IpAddress) -> bool {
    match ip {
        IpAddress::V4(a) => forall|i: int| 0 <= i < 4 ==> #[trigger] a@[i] == 0,
        IpAddress::V6(a) => forall|i: int| 0 <= i < 16 ==> #[trigger] a@[i] == 0,
    }
}

/// The wildcard endpoint of the given family, port zero.
pub open spec fn is_wildcard(e: Endpoint, v4: bool) -> bool {
    &&& e.port == 0
    &&& e.scope_id == 0
    &&& unspecified(e.ip)
    &&& (e.ip is V4) == v4
}

fn all_zero(s: &[u8]) -> (r: bool)
    ensures
        r == forall|i: int| 0 <= i < s@.len() ==> #[trigger] s@[i] == 0,
{
    let mut i: usize = 0;
    while i < s.len()
        invariant
            i <= s@.len(),
            forall|j: int| 0 <= j < i ==> #[trigger] s@[j] == 0,
        decreases s.len() - i,
    {
        if s[i] != 0 {
            assert(s@[i as int] != 0);
            return false;
        }
        i = i + 1;
    }
    true
}

pub fn is_unspecified(ip: &IpAddress) -> (r: bool)
    ensures
        r == unspecified(*ip),
{
    match ip {
        IpAddress::V4(a) => all_zero(a.as_slice()),
        IpAddress::V6(a) => all_zero(a.as_slice()),
    }
}

/// What a slice of the wrong length gives when converted to an array.
pub open spec fn slice_length_error() -> Seq<char> {
    "could not convert slice to array"@
}

/// What a port above 65535 gives when converted to `u16`.
pub open spec fn port_range_error() -> Seq<char> {
    "out of range integral type conversion attempted"@
}

/// An IPv4 endpoint from four octets and a port.
pub fn endpoint_ipv4(bytes: &[u8], port: u32) -> (r: Result<Endpoint, String>)
    ensures
        match r {
            Ok(e) => bytes@.len() == 4 && port <= u16::MAX && e.port == port && e.scope_id == 0
                && (e.ip matches IpAddress::V4(a) && a@ == bytes@),
            Err(s) => if bytes@.len() != 4 {
                s@ == slice_length_error()
            } else {
                port > u16::MAX && s@ == port_range_error()
            },
        },
{
    if bytes.len() != 4 {
        return Err("could not convert slice to array".to_owned());
    }
    if port > 65535 {
        return Err("out of range integral type conversion attempted".to_owned());
    }
    let a: [u8; 4] = [bytes[0], bytes[1], bytes[2], bytes[3]];
    assert(a@ =~= bytes@);
    Ok(Endpoint { ip: IpAddress::V4(a), port: port as u16, scope_id: 0 })
}

/// An IPv6 endpoint from sixteen octets, a port and a numeric interface scope.
pub fn endpoint_ipv6(bytes: &[u8], port: u32, scope_id: u32) -> (r: Result<Endpoint, String>)
    ensures
        match r {
            Ok(e) => bytes@.len() == 16 && port <= u16::MAX && e.port == port && e.scope_id
                == scope_id && (e.ip matches IpAddress::V6(a) && a@ == bytes@),
            Err(s) => if bytes@.len() != 16 {
                s@ == slice_length_error()
            } else {
                port > u16::MAX && s@ == port_range_error()
            },
        },
{
    if bytes.len() != 16 {
        return Err("could not convert slice to array".to_owned());
    }
    if port > 65535 {
        return Err("out of range integral type conversion attempted".to_owned());
    }
    let mut a: [u8; 16] = [0u8; 16];
    let mut i: usize = 0;
    while i < 16
        invariant
            i <= 16,
            bytes@.len() == 16,
            forall|j: int| 0 <= j < i ==> a[j] == bytes@[j],
        decreases 16 - i,
    {
        a[i] = bytes[i];
        i = i + 1;
    }
    assert(a@ =~= bytes@);
    Ok(Endpoint { ip: IpAddress::V6(a), port: port as u16, scope_id })
}

/// 127.0.0.1 at `port`.
pub fn endpoint_loopback(port: u32) -> (r: Result<Endpoint, String>)
    ensures
        match r {
            Ok(e) => port <= u16::MAX && e.port == port && e.scope_id == 0 && (e.ip matches IpAddress::V4(
                a,
            ) && a@ == seq![127u8, 0, 0, 1]),
            Err(s) => port > u16::MAX && s@ == port_range_error(),
        },
{
    let bytes: [u8; 4] = [127, 0, 0, 1];
    assert(bytes@ =~= seq![127u8, 0, 0, 1]);
    endpoint_ipv4(bytes.as_slice(), port)
}

/// 0.0.0.0 at `port`.
pub fn endpoint_any_ipv4(port: u32) -> (r: Result<Endpoint, String>)
    ensures
        match r {
            Ok(e) => port <= u16::MAX && e.port == port && e.scope_id == 0 && (e.ip matches IpAddress::V4(
                a,
            ) && a@ == seq![0u8, 0, 0, 0]),
            Err(s) => port > u16::MAX && s@ == port_range_error(),
        },
{
    let bytes: [u8; 4] = [0, 0, 0, 0];
    assert(bytes@ =~= seq![0u8, 0, 0, 0]);
    endpoint_ipv4(bytes.as_slice(), port)
}

pub fn endpoint_port(endpoint: &Endpoint) -> (r: u32)
    ensures
        r == endpoint.port,
{
    endpoint.port as u32
}

/// Whether two endpoints are the same.
pub fn same_endpoint(a: &Endpoint, b: &Endpoint) -> (r: bool)
    ensures
        r == (*a == *b),
{
    if a.port != b.port || a.scope_id != b.scope_id {
        return false;
    }
    match (a.ip, b.ip) {
        (IpAddress::V4(x), IpAddress::V4(y)) => {
            let mut i: usize = 0;
            while i < 4
                invariant
                    i <= 4,
                    a.ip == IpAddress::V4(x),
                    b.ip == IpAddress::V4(y),
                    forall|j: int| 0 <= j < i ==> x[j] == y[j],
                decreases 4 - i,
            {
                if x[i] != y[i] {
                    assert(x[i as int] != y[i as int]);
                    return false;
                }
                i = i + 1;
            }
            proof {
                broadcast use vstd::array::axiom_array_ext_equal;

                assert(x =~= y);
            }
            true
        },
        (IpAddress::V6(x), IpAddress::V6(y)) => {
            let mut i: usize = 0;
            while i < 16
                invariant
                    i <= 16,
                    a.ip == IpAddress::V6(x),
                    b.ip == IpAddress::V6(y),
                    forall|j: int| 0 <= j < i ==> x[j] == y[j],
                decreases 16 - i,
            {
                if x[i] != y[i] {
                    assert(x[i as int] != y[i as int]);
                    return false;
                }
                i = i + 1;
            }
            proof {
                broadcast use vstd::array::axiom_array_ext_equal;

                assert(x =~= y);
            }
            true
        },
        _ => false,
    }
}

/// Interfaces and addresses that mDNS discovery or advertisement is limited to; empty
/// lists select every interface and the current interface addresses.
#[derive(Clone, Debug)]
pub struct DiscoveryOptions {
    pub interfaces: Vec<String>,
    pub addresses: Vec<IpAddress>,
}

/// A leader's configuration.
#[derive(Clone, Debug)]
pub struct LeaderOptions {
    pub bind: Endpoint,
    pub name: String,
    pub identity: String,
    pub format: FrameFormat,
    pub position: Position,
    pub rate: Rate,
    pub source_kind: SourceKind,
    pub advertise: bool,
    pub discovery: DiscoveryOptions,
    pub timing: Timing,
    pub max_followers: usize,
}

/// A follower's configuration.
#[derive(Clone, Debug)]
pub struct FollowerOptions {
    pub address: Endpoint,
    pub bind: Endpoint,
    pub trust: Trust,
    pub timing: Timing,
    pub fallback_position: Position,
    pub fallback_format: FrameFormat,
    pub clock_diagnostics: bool,
}

/// Eight intervals in nanoseconds, in the order of `Timing`'s fields.
pub open spec fn timing_of(
    acquisition_ns: u64,
    steady_ns: u64,
    heartbeat_ns: u64,
    publish_ns: u64,
    source_timeout_ns: u64,
    connect_timeout_ns: u64,
    retry_min_ns: u64,
    retry_max_ns: u64,
) -> Timing {
    Timing {
        acquisition_probe: acquisition_ns,
        steady_probe: steady_ns,
        heartbeat: heartbeat_ns,
        tracked_publish: publish_ns,
        source_timeout: source_timeout_ns,
        connect_timeout: connect_timeout_ns,
        retry_min: retry_min_ns,
        retry_max: retry_max_ns,
    }
}

fn timing(
    acquisition_ns: u64,
    steady_ns: u64,
    heartbeat_ns: u64,
    publish_ns: u64,
    source_timeout_ns: u64,
    connect_timeout_ns: u64,
    retry_min_ns: u64,
    retry_max_ns: u64,
) -> (t: Timing)
    ensures
        t == timing_of(
            acquisition_ns,
            steady_ns,
            heartbeat_ns,
            publish_ns,
            source_timeout_ns,
            connect_timeout_ns,
            retry_min_ns,
            retry_max_ns,
        ),
{
    Timing {
        acquisition_probe: acquisition_ns,
        steady_probe: steady_ns,
        heartbeat: heartbeat_ns,
        tracked_publish: publish_ns,
        source_timeout: source_timeout_ns,
        connect_timeout: connect_timeout_ns,
        retry_min: retry_min_ns,
        retry_max: retry_max_ns,
    }
}

/// Default leader options: bound to 0.0.0.0 on any port, named "Ethersync", a fresh random
/// UUID as identity, 30 fps paused at frame zero, a generated source, advertised, default
/// timing and up to 64 followers.
pub fn leader_options_new() -> (o: LeaderOptions)
    ensures
        is_wildcard(o.bind, true),
        o.name@ == "Ethersync"@,
        exists|b: [u8; 16]| o.identity@ == #[trigger] uuid_text(b@),
        o.format.spec_numerator() == 30 && o.format.spec_denominator() == 1
            && !o.format.spec_drop_frame(),
        o.position == (Position { frames: 0, subframe: 0 }),
        o.rate.spec_numerator() == 0 && o.rate.spec_denominator() == 1,
        o.source_kind == SourceKind::Generated,
        o.advertise,
        o.discovery.interfaces@.len() == 0 && o.discovery.addresses@.len() == 0,
        o.timing == default_timing(),
        o.max_followers == 64,
{
    let bind = Endpoint { ip: IpAddress::V4([0u8; 4]), port: 0, scope_id: 0 };
    assert(is_wildcard(bind, true));
    let id = uuid_v4();
    let identity = uuid_string(id);
    LeaderOptions {
        bind,
        name: "Ethersync".to_owned(),
        identity,
        format: FrameFormat::default(),
        position: Position::zero(),
        rate: Rate::paused(),
        source_kind: SourceKind::Generated,
        advertise: true,
        discovery: discovery_options_new(),
        timing: Timing::default(),
        max_followers: 64,
    }
}

pub fn leader_options_bind(options: &mut LeaderOptions, address: Endpoint)
    ensures
        *final(options) == (LeaderOptions { bind: address, ..*old(options) }),
{
    options.bind = address;
}

pub fn leader_options_bind_endpoint(options: &mut LeaderOptions, endpoint: &Endpoint)
    ensures
        *final(options) == (LeaderOptions { bind: *endpoint, ..*old(options) }),
{
    options.bind = *endpoint;
}

pub fn leader_options_name(options: &mut LeaderOptions, name: &str)
    ensures
        final(options).name@ == name@,
        *final(options) == (LeaderOptions { name: final(options).name, ..*old(options) }),
{
    options.name = name.to_owned();
}

pub fn leader_options_advertise(options: &mut LeaderOptions, enabled: bool)
    ensures
        *final(options) == (LeaderOptions { advertise: enabled, ..*old(options) }),
{
    options.advertise = enabled;
}

pub fn leader_options_capacity(options: &mut LeaderOptions, capacity: u32)
    ensures
        final(options).max_followers == capacity,
        *final(options) == (LeaderOptions {
            max_followers: final(options).max_followers,
            ..*old(options)
        }),
{
    options.max_followers = capacity as usize;
}

pub fn leader_options_format(options: &mut LeaderOptions, numerator: u32, denominator: u32, drop_frame: bool) -> (r: Result<(), String>)
    ensures
        match r {
            Ok(_) => crate::timecode::supported_format(numerator, denominator, drop_frame)
                && final(options).format.spec_numerator() == numerator
                && final(options).format.spec_denominator() == denominator
                && final(options).format.spec_drop_frame() == drop_frame
                && *final(options) == (LeaderOptions { format: final(options).format, ..*old(options) }),
            Err(s) => !crate::timecode::supported_format(numerator, denominator, drop_frame)
                && s@ == error_text(Error::Invalid("frame format")) && *final(options) == *old(options),
        },
{
    match FrameFormat::new(numerator, denominator, drop_frame) {
        Ok(f) => {
            options.format = f;
            Ok(())
        },
        Err(e) => Err(e.to_string()),
    }
}

/// A leader either generates its timeline or tracks an external source.
pub fn leader_options_tracked(options: &mut LeaderOptions, external: bool)
    ensures
        *final(options) == (LeaderOptions {
            source_kind: if external {
                SourceKind::External
            } else {
                SourceKind::Generated
            },
            ..*old(options)
        }),
{
    options.source_kind = if external {
        SourceKind::External
    } else {
        SourceKind::Generated
    };
}

pub fn leader_options_identity(options: &mut LeaderOptions, identity: &str)
    ensures
        final(options).identity@ == identity@,
        *final(options) == (LeaderOptions { identity: final(options).identity, ..*old(options) }),
{
    options.identity = identity.to_owned();
}

pub fn leader_options_interface(options: &mut LeaderOptions, name: &str)
    ensures
        final(options).discovery.interfaces@.len() == old(options).discovery.interfaces@.len() + 1,
        final(options).discovery.interfaces@.drop_last() == old(options).discovery.interfaces@,
        final(options).discovery.interfaces@.last()@ == name@,
        final(options).discovery.addresses == old(options).discovery.addresses,
        *final(options) == (LeaderOptions { discovery: final(options).discovery, ..*old(options) }),
{
    options.discovery.interfaces.push(name.to_owned());
}

pub fn leader_options_address(options: &mut LeaderOptions, address: IpAddress)
    ensures
        final(options).discovery.addresses@ == old(options).discovery.addresses@.push(address),
        final(options).discovery.interfaces == old(options).discovery.interfaces,
        *final(options) == (LeaderOptions { discovery: final(options).discovery, ..*old(options) }),
{
    options.discovery.addresses.push(address);
}

/// The position and rate a leader starts from.
pub fn leader_options_start(options: &mut LeaderOptions, frames: i64, subframe: u32, numerator: i32, denominator: u32) -> (r: Result<(), String>)
    ensures
        match r {
            Ok(_) => crate::timecode::rate_in_range(numerator as int, denominator as int)
                && final(options).position == (Position { frames, subframe })
                && final(options).rate.spec_numerator() * crate::timecode::rate_gcd(
                numerator as int,
                denominator as int,
            ) == numerator && final(options).rate.spec_denominator() * crate::timecode::rate_gcd(
                numerator as int,
                denominator as int,
            ) == denominator && *final(options) == (LeaderOptions {
                position: final(options).position,
                rate: final(options).rate,
                ..*old(options)
            }),
            Err(s) => !crate::timecode::rate_in_range(numerator as int, denominator as int) && s@
                == error_text(Error::Invalid("rate (maximum magnitude 64)")) && *final(options)
                == *old(options),
        },
{
    match Rate::new(numerator, denominator) {
        Ok(rate) => {
            options.position = Position { frames, subframe };
            options.rate = rate;
            Ok(())
        },
        Err(e) => Err(e.to_string()),
    }
}

pub fn leader_options_timing(
    options: &mut LeaderOptions,
    acquisition_ns: u64,
    steady_ns: u64,
    heartbeat_ns: u64,
    publish_ns: u64,
    source_timeout_ns: u64,
    connect_timeout_ns: u64,
    retry_min_ns: u64,
    retry_max_ns: u64,
)
    ensures
        *final(options) == (LeaderOptions {
            timing: timing_of(
                acquisition_ns,
                steady_ns,
                heartbeat_ns,
                publish_ns,
                source_timeout_ns,
                connect_timeout_ns,
                retry_min_ns,
                retry_max_ns,
            ),
            ..*old(options)
        }),
{
    options.timing = timing(
        acquisition_ns,
        steady_ns,
        heartbeat_ns,
        publish_ns,
        source_timeout_ns,
        connect_timeout_ns,
        retry_min_ns,
        retry_max_ns,
    );
}

/// A follower of the leader at `address`, bound to the wildcard of the same family on any
/// port, trusting the local network, with default timing and a paused 30 fps fallback.
pub fn follower_options_new(address: Endpoint) -> (o: FollowerOptions)
    ensures
        o.address == address,
        is_wildcard(o.bind, address.ip is V4),
        o.trust is TrustedLan,
        o.timing == default_timing(),
        o.fallback_position == (Position { frames: 0, subframe: 0 }),
        o.fallback_format.spec_numerator() == 30 && o.fallback_format.spec_denominator() == 1
            && !o.fallback_format.spec_drop_frame(),
        !o.clock_diagnostics,
{
    let bind = match address.ip {
        IpAddress::V4(_) => Endpoint { ip: IpAddress::V4([0u8; 4]), port: 0, scope_id: 0 },
        IpAddress::V6(_) => Endpoint { ip: IpAddress::V6([0u8; 16]), port: 0, scope_id: 0 },
    };
    FollowerOptions {
        address,
        bind,
        trust: Trust::TrustedLan,
        timing: Timing::default(),
        fallback_position: Position::zero(),
        fallback_format: FrameFormat::default(),
        clock_diagnostics: false,
    }
}

/// A follower of the endpoint, which must name a concrete address and port.
pub fn follower_options_endpoint(endpoint: &Endpoint) -> (r: Result<FollowerOptions, String>)
    ensures
        match r {
            Ok(o) => endpoint.port != 0 && !unspecified(endpoint.ip) && o.address == *endpoint
                && is_wildcard(o.bind, endpoint.ip is V4) && o.trust is TrustedLan,
            Err(s) => (endpoint.port == 0 || unspecified(endpoint.ip)) && s@
                == "a follower needs a concrete IP address and nonzero port"@,
        },
{
    if endpoint.port == 0 || is_unspecified(&endpoint.ip) {
        return Err("a follower needs a concrete IP address and nonzero port".to_owned());
    }
    Ok(follower_options_new(*endpoint))
}

pub fn follower_options_bind(options: &mut FollowerOptions, address: Endpoint)
    ensures
        *final(options) == (FollowerOptions { bind: address, ..*old(options) }),
{
    options.bind = address;
}

pub fn follower_options_bind_endpoint(options: &mut FollowerOptions, endpoint: &Endpoint)
    ensures
        *final(options) == (FollowerOptions { bind: *endpoint, ..*old(options) }),
{
    options.bind = *endpoint;
}

/// Pins the leader's certificate fingerprint; an empty one trusts the local network.
pub fn follower_options_pin(options: &mut FollowerOptions, fingerprint: &str)
    ensures
        fingerprint@.len() == 0 ==> final(options).trust is TrustedLan,
        fingerprint@.len() != 0 ==> (final(options).trust matches Trust::Pinned(p) && p@
            == fingerprint@),
        *final(options) == (FollowerOptions { trust: final(options).trust, ..*old(options) }),
{
    options.trust = if fingerprint.is_empty() {
        Trust::TrustedLan
    } else {
        Trust::Pinned(fingerprint.to_owned())
    };
}

pub fn follower_options_timing(
    options: &mut FollowerOptions,
    acquisition_ns: u64,
    steady_ns: u64,
    heartbeat_ns: u64,
    publish_ns: u64,
    source_timeout_ns: u64,
    connect_timeout_ns: u64,
    retry_min_ns: u64,
    retry_max_ns: u64,
)
    ensures
        *final(options) == (FollowerOptions {
            timing: timing_of(
                acquisition_ns,
                steady_ns,
                heartbeat_ns,
                publish_ns,
                source_timeout_ns,
                connect_timeout_ns,
                retry_min_ns,
                retry_max_ns,
            ),
            ..*old(options)
        }),
{
    options.timing = timing(
        acquisition_ns,
        steady_ns,
        heartbeat_ns,
        publish_ns,
        source_timeout_ns,
        connect_timeout_ns,
        retry_min_ns,
        retry_max_ns,
    );
}

/// What a follower shows before its first clock measurement.
pub fn follower_options_fallback(
    options: &mut FollowerOptions,
    frames: i64,
    subframe: u32,
    fps_numerator: u32,
    fps_denominator: u32,
    drop_frame: bool,
) -> (r: Result<(), String>)
    ensures
        match r {
            Ok(_) => crate::timecode::supported_format(fps_numerator, fps_denominator, drop_frame)
                && final(options).fallback_position == (Position { frames, subframe })
                && final(options).fallback_format.spec_numerator() == fps_numerator
                && final(options).fallback_format.spec_denominator() == fps_denominator
                && final(options).fallback_format.spec_drop_frame() == drop_frame
                && *final(options) == (FollowerOptions {
                fallback_position: final(options).fallback_position,
                fallback_format: final(options).fallback_format,
                ..*old(options)
            }),
            Err(s) => !crate::timecode::supported_format(fps_numerator, fps_denominator, drop_frame)
                && s@ == error_text(Error::Invalid("frame format")) && *final(options) == *old(options),
        },
{
    match FrameFormat::new(fps_numerator, fps_denominator, drop_frame) {
        Ok(format) => {
            options.fallback_position = Position { frames, subframe };
            options.fallback_format = format;
            Ok(())
        },
        Err(e) => Err(e.to_string()),
    }
}

pub fn follower_options_diagnostics(options: &mut FollowerOptions, enabled: bool)
    ensures
        *final(options) == (FollowerOptions { clock_diagnostics: enabled, ..*old(options) }),
{
    options.clock_diagnostics = enabled;
}

pub fn discovery_options_new() -> (o: DiscoveryOptions)
    ensures
        o.interfaces@.len() == 0,
        o.addresses@.len() == 0,
{
    DiscoveryOptions { interfaces: Vec::new(), addresses: Vec::new() }
}

pub fn discovery_options_interface(options: &mut DiscoveryOptions, name: &str)
    ensures
        final(options).interfaces@.len() == old(options).interfaces@.len() + 1,
        final(options).interfaces@.drop_last() == old(options).interfaces@,
        final(options).interfaces@.last()@ == name@,
        final(options).addresses == old(options).addresses,
{
    options.interfaces.push(name.to_owned());
}

pub fn discovery_options_address(options: &mut DiscoveryOptions, address: IpAddress)
    ensures
        final(options).addresses@ == old(options).addresses@.push(address),
        final(options).interfaces == old(options).interfaces,
{
    options.addresses.push(address);
}

/// A leader found by discovery, as its advertisement describes it.
#[derive(Clone, Debug)]
pub struct DiscoveredLeader {
    pub service_name: String,
    pub identity: String,
    pub name: String,
    pub protocol_version: u32,
    pub addresses: Vec<Endpoint>,
    pub fingerprint: String,
}

impl FollowerOptions {
    /// A follower of a discovered leader at one of its advertised addresses, pinned to its
    /// advertised certificate. Leaders of another protocol version are refused.
    pub fn discovered(leader: &DiscoveredLeader, address: &Endpoint) -> (r: Result<
        FollowerOptions,
        crate::config::EngineError,
    >)
        ensures
            match r {
                Ok(o) => leader.protocol_version == 1 && leader.addresses@.contains(*address)
                    && o.address == *address && is_wildcard(o.bind, address.ip is V4) && (o.trust matches Trust::Pinned(
                    p,
                ) && p@ == leader.fingerprint@),
                Err(e) => if leader.protocol_version != 1 {
                    e matches crate::config::EngineError::Protocol(Error::Version(v)) && v
                        == leader.protocol_version
                } else {
                    !leader.addresses@.contains(*address) && (e matches crate::config::EngineError::Invalid(
                        m,
                    ) && m == "address is not in discovered service")
                },
            },
    {
        if leader.protocol_version != 1 {
            return Err(crate::config::EngineError::Protocol(Error::Version(leader.protocol_version)));
        }
        let mut i: usize = 0;
        let mut found = false;
        while i < leader.addresses.len()
            invariant
                i <= leader.addresses@.len(),
                found ==> leader.addresses@.contains(*address),
                !found ==> forall|j: int| 0 <= j < i ==> leader.addresses@[j] != *address,
            decreases leader.addresses.len() - i,
        {
            if same_endpoint(&leader.addresses[i], address) {
                found = true;
                assert(leader.addresses@[i as int] == *address);
            }
            i = i + 1;
        }
        if !found {
            return Err(crate::config::EngineError::Invalid("address is not in discovered service"));
        }
        let mut o = follower_options_new(*address);
        o.trust = Trust::Pinned(leader.fingerprint.clone());
        Ok(o)
    }
}

/// The timeline a follower shows before it hears from its leader: the configured fallback
/// format and position, paused at time zero, otherwise the default timeline.
pub fn fallback(options: &FollowerOptions) -> (t: crate::timeline::Timeline)
    ensures
        t.format == options.fallback_format,
        t.anchor.time_ns == 0,
        t.anchor.position == options.fallback_position,
        t.anchor.rate.spec_numerator() == 0 && t.anchor.rate.spec_denominator() == 1,
        t.session@ == Seq::new(16, |i: int| 0u8),
        t.revision == 0,
        t.discontinuity == 0,
        t.source_kind == crate::timeline::SourceKind::Generated,
        t.source_health == crate::timeline::SourceHealth::Healthy,
        t.scheduled_len == 0,
{
    let base = crate::timeline::Timeline::default();
    let anchor = crate::timeline::Anchor { position: options.fallback_position, ..base.anchor };
    crate::timeline::Timeline { format: options.fallback_format, anchor, ..base }
}

/// The leaders a discovery found at its last poll.
#[derive(Clone, Debug)]
pub struct Discovery {
    pub leaders: Vec<DiscoveredLeader>,
}

/// The leader at `index`, or the error the facade reports for a bad index.
pub open spec fn leader_index_ok(d: Discovery, index: u32) -> bool {
    index < d.leaders@.len()
}

/// The advertised name of the leader at `index`.
pub fn discovery_name(discovery: &Discovery, index: u32) -> (r: Result<String, String>)
    ensures
        match r {
            Ok(n) => leader_index_ok(*discovery, index) && n@ == discovery.leaders@[index as int].name@,
            Err(e) => !leader_index_ok(*discovery, index) && e@ == "discovery index"@,
        },
{
    let i = index as usize;
    if i >= discovery.leaders.len() {
        return Err("discovery index".to_owned());
    }
    Ok(discovery.leaders[i].name.clone())
}

/// The identity of the leader at `index`.
pub fn discovery_identity(discovery: &Discovery, index: u32) -> (r: Result<String, String>)
    ensures
        match r {
            Ok(n) => leader_index_ok(*discovery, index) && n@ == discovery.leaders@[index as int].identity@,
            Err(e) => !leader_index_ok(*discovery, index) && e@ == "discovery index"@,
        },
{
    let i = index as usize;
    if i >= discovery.leaders.len() {
        return Err("discovery index".to_owned());
    }
    Ok(discovery.leaders[i].identity.clone())
}

/// The certificate fingerprint the leader at `index` advertises.
pub fn discovery_fingerprint(discovery: &Discovery, index: u32) -> (r: Result<String, String>)
    ensures
        match r {
            Ok(n) => leader_index_ok(*discovery, index) && n@ == discovery.leaders@[index as int].fingerprint@,
            Err(e) => !leader_index_ok(*discovery, index) && e@ == "discovery index"@,
        },
{
    let i = index as usize;
    if i >= discovery.leaders.len() {
        return Err("discovery index".to_owned());
    }
    Ok(discovery.leaders[i].fingerprint.clone())
}

/// The protocol version the leader at `index` advertises.
pub fn discovery_version(discovery: &Discovery, index: u32) -> (r: Result<u32, String>)
    ensures
        match r {
            Ok(v) => leader_index_ok(*discovery, index) && v == discovery.leaders@[index as int].protocol_version,
            Err(e) => !leader_index_ok(*discovery, index) && e@ == "discovery index"@,
        },
{
    let i = index as usize;
    if i >= discovery.leaders.len() {
        return Err("discovery index".to_owned());
    }
    Ok(discovery.leaders[i].protocol_version)
}

/// How many addresses the leader at `index` advertises (as a `u32`, truncated).
pub fn discovery_address_count(discovery: &Discovery, index: u32) -> (r: Result<u32, String>)
    ensures
        match r {
            Ok(c) => leader_index_ok(*discovery, index) && c == discovery.leaders@[index as int].addresses@.len() as u32,
            Err(e) => !leader_index_ok(*discovery, index) && e@ == "discovery index"@,
        },
{
    let i = index as usize;
    if i >= discovery.leaders.len() {
        return Err("discovery index".to_owned());
    }
    Ok(discovery.leaders[i].addresses.len() as u32)
}

/// Whether the leader at `index` has an address at `address_index`.
pub open spec fn address_index_ok(d: Discovery, index: u32, address_index: u32) -> bool {
    leader_index_ok(d, index) && address_index < d.leaders@[index as int].addresses@.len()
}

/// The address at `address_index` of the leader at `index`.
pub fn discovery_address(discovery: &Discovery, index: u32, address_index: u32) -> (r: Result<Endpoint, String>)
    ensures
        match r {
            Ok(a) => address_index_ok(*discovery, index, address_index) && a == discovery.leaders@[index as int].addresses@[address_index as int],
            Err(e) => if !leader_index_ok(*discovery, index) {
                e@ == "discovery index"@
            } else {
                !address_index_ok(*discovery, index, address_index) && e@ == "address index"@
            },
        },
{
    let i = index as usize;
    if i >= discovery.leaders.len() {
        return Err("discovery index".to_owned());
    }
    let j = address_index as usize;
    if j >= discovery.leaders[i].addresses.len() {
        return Err("address index".to_owned());
    }
    Ok(discovery.leaders[i].addresses[j])
}

/// A follower of the leader at `index`, at its address at `address_index`, as
/// `FollowerOptions::discovered` makes it; its errors are described as text.
pub fn follower_options_discovered(discovery: &Discovery, index: u32, address_index: u32) -> (r: Result<FollowerOptions, String>)
    ensures
        match r {
            Ok(o) => address_index_ok(*discovery, index, address_index) && ({
                let leader = discovery.leaders@[index as int];
                let address = leader.addresses@[address_index as int];
                &&& leader.protocol_version == 1
                &&& o.address == address
                &&& is_wildcard(o.bind, address.ip is V4)
                &&& (o.trust matches Trust::Pinned(p) && p@ == leader.fingerprint@)
            }),
            Err(e) => if !leader_index_ok(*discovery, index) {
                e@ == "discovery index"@
            } else if !address_index_ok(*discovery, index, address_index) {
                e@ == "address index"@
            } else {
                let v = discovery.leaders@[index as int].protocol_version;
                v != 1 && e@ == crate::config::engine_error_text(
                    crate::config::EngineError::Protocol(Error::Version(v)),
                )
            },
        },
{
    let i = index as usize;
    if i >= discovery.leaders.len() {
        return Err("discovery index".to_owned());
    }
    let j = address_index as usize;
    if j >= discovery.leaders[i].addresses.len() {
        return Err("address index".to_owned());
    }
    let leader = &discovery.leaders[i];
    let address = leader.addresses[j];
    proof {
        assert(leader.addresses@[j as int] == address);
    }
    match FollowerOptions::discovered(leader, &address) {
        Ok(o) => Ok(o),
        Err(e) => Err(e.to_string()),
    }
}

/// The checks an engine applies to a follower's options before starting it: valid
/// timing, a valid correction policy (`policy_ok`, judged by the caller), a local address
/// of the leader's family, and a well-formed pin.
pub fn validate_follower(options: &FollowerOptions, policy_ok: bool) -> (r: Result<
    (),
    crate::config::EngineError,
>)
    ensures
        r is Ok <==> options.timing.valid() && policy_ok && (options.bind.ip is V4)
            == (options.address.ip is V4) && (options.trust matches Trust::Pinned(p) ==> pin_valid(
            vstd::utf8::encode_utf8(p@),
        )),
        !options.timing.valid() ==> (r matches Err(crate::config::EngineError::Invalid(m)) && m
            == "timing intervals must be in (0, 1 hour], retry_min <= retry_max"),
        options.timing.valid() && !policy_ok ==> (r matches Err(
            crate::config::EngineError::Invalid(m),
        ) && m == "correction policy"),
        options.timing.valid() && policy_ok && (options.bind.ip is V4) != (options.address.ip is V4)
            ==> (r matches Err(crate::config::EngineError::Invalid(m)) && m
            == "bind/address families differ"),
        options.timing.valid() && policy_ok && (options.bind.ip is V4) == (options.address.ip is V4)
            && r is Err ==> (r matches Err(crate::config::EngineError::Transport(m)) && m@
            == "certificate pin must contain 64 hexadecimal digits"@),
{
    match options.timing.validate() {
        Ok(_) => {},
        Err(e) => return Err(e),
    }
    if !policy_ok {
        return Err(crate::config::EngineError::Invalid("correction policy"));
    }
    let bind_v4 = match options.bind.ip {
        IpAddress::V4(_) => true,
        IpAddress::V6(_) => false,
    };
    let address_v4 = match options.address.ip {
        IpAddress::V4(_) => true,
        IpAddress::V6(_) => false,
    };
    if bind_v4 != address_v4 {
        return Err(crate::config::EngineError::Invalid("bind/address families differ"));
    }
    match &options.trust {
        Trust::Pinned(p) => match crate::tls::validate_pin(p.as_str()) {
            Ok(_) => {},
            Err(e) => {
                let t = e.to_string();
                proof {
                    reveal_strlit("certificate pin must contain 64 hexadecimal digits");
                }
                return Err(crate::config::EngineError::Transport(t));
            },
        },
        Trust::TrustedLan => {},
    }
    Ok(())
}

/// The checks an engine applies to a leader's options before starting it.
pub fn validate_leader_options(options: &LeaderOptions) -> (r: Result<(), crate::config::EngineError>)
    ensures
        r is Ok <==> crate::config::leader_settings_ok(
            vstd::utf8::encode_utf8(options.name@).len(),
            vstd::utf8::encode_utf8(options.identity@).len(),
            options.max_followers,
            options.timing,
        ),
        !options.timing.valid() ==> (r matches Err(crate::config::EngineError::Invalid(m)) && m
            == "timing intervals must be in (0, 1 hour], retry_min <= retry_max"),
        options.timing.valid() && r is Err ==> (r matches Err(
            crate::config::EngineError::Invalid(m),
        ) && m == "leader name, identity or follower capacity"),
{
    crate::config::validate_leader(
        options.name.as_str(),
        options.identity.as_str(),
        options.max_followers,
        &options.timing,
    )
}

} // verus!