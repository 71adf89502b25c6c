use ethersync_protocol::config::{EngineError, Timing, Trust};
use ethersync_protocol::options::{
    discovery_options_address, discovery_options_interface, discovery_options_new, endpoint_any_ipv4,
    endpoint_ipv4, endpoint_ipv6, endpoint_loopback, endpoint_port, follower_options_bind,
    follower_options_diagnostics, follower_options_discovered, follower_options_endpoint,
    fallback, follower_options_fallback, follower_options_new, follower_options_pin, follower_options_timing,
    leader_options_address, leader_options_advertise, leader_options_bind_endpoint,
    leader_options_capacity, leader_options_format, leader_options_identity,
    leader_options_interface, leader_options_name, leader_options_new, leader_options_start,
    leader_options_timing, leader_options_tracked, same_endpoint, validate_follower,
    validate_leader_options, discovery_address, discovery_address_count, discovery_fingerprint,
    discovery_identity, discovery_name, discovery_version, DiscoveredLeader, Discovery, Endpoint,
    FollowerOptions, IpAddress,
};
use ethersync_protocol::tls::TransportError;
use ethersync_protocol::timeline::SourceKind;
use ethersync_protocol::{Error, Position};

#[test]
fn typed_endpoints_validate_octets_and_ports() {
    let e = endpoint_ipv4(&[127, 0, 0, 1], 4443).unwrap();
    assert_eq!(endpoint_port(&e), 4443);
    assert!(same_endpoint(&e, &endpoint_loopback(4443).unwrap()));
    assert_eq!(
        endpoint_ipv4(&[127, 0, 0], 1).err().unwrap(),
        "could not convert slice to array"
    );
    assert_eq!(
        endpoint_ipv4(&[127, 0, 0, 1], 65536).err().unwrap(),
        "out of range integral type conversion attempted"
    );
    let mut v6 = [0u8; 16];
    v6[0] = 0xfe;
    v6[1] = 0x80;
    v6[15] = 1;
    let e6 = endpoint_ipv6(&v6, 4443, 7).unwrap();
    assert_eq!(e6.scope_id, 7);
    assert!(!same_endpoint(&e, &e6));
    assert!(endpoint_ipv6(&v6[..15], 1, 0).is_err());
    assert!(follower_options_endpoint(&endpoint_any_ipv4(4443).unwrap()).is_err());
    assert!(follower_options_endpoint(&endpoint_loopback(0).unwrap()).is_err());
    let f = follower_options_endpoint(&e6).unwrap();
    assert!(matches!(f.bind.ip, IpAddress::V6(a) if a == [0; 16]));
}

#[test]
fn leader_options_start_from_defaults_and_update_one_field_each() {
    let mut o = leader_options_new();
    leader_options_identity(&mut o, "apple-adapter-test");
    assert_eq!(o.name, "Ethersync");
    assert_eq!(o.identity, "apple-adapter-test");
    assert_eq!(o.max_followers, 64);
    assert!(o.advertise);
    leader_options_name(&mut o, "studio");
    leader_options_identity(&mut o, "changed");
    leader_options_advertise(&mut o, false);
    leader_options_capacity(&mut o, 30);
    leader_options_tracked(&mut o, true);
    leader_options_interface(&mut o, "en0");
    leader_options_address(&mut o, IpAddress::V4([10, 0, 0, 2]));
    leader_options_bind_endpoint(&mut o, &endpoint_loopback(4443).unwrap());
    assert_eq!((o.name.as_str(), o.identity.as_str()), ("studio", "changed"));
    assert_eq!((o.max_followers, o.advertise, o.source_kind), (30, false, SourceKind::External));
    assert_eq!(o.discovery.interfaces, vec!["en0".to_string()]);
    assert_eq!(o.discovery.addresses.len(), 1);
    assert_eq!(o.bind.port, 4443);
    assert_eq!(
        leader_options_format(&mut o, 25, 1, true).err().unwrap(),
        "invalid timecode or wire value: frame format"
    );
    leader_options_format(&mut o, 25, 1, false).unwrap();
    assert_eq!(o.format.numerator(), 25);
    assert!(leader_options_start(&mut o, 10, 0, 65, 1).is_err());
    leader_options_start(&mut o, 10, 5, 2, 4).unwrap();
    assert_eq!(o.position, Position { frames: 10, subframe: 5 });
    assert_eq!((o.rate.numerator(), o.rate.denominator()), (1, 2));
    leader_options_timing(&mut o, 1, 2, 3, 4, 5, 6, 7, 8);
    assert_eq!((o.timing.acquisition_probe, o.timing.retry_max), (1, 8));
}

#[test]
fn follower_options_pin_fallback_and_timing() {
    let leader = endpoint_ipv4(&[192, 168, 1, 2], 4443).unwrap();
    let mut o = follower_options_new(leader);
    assert!(matches!(o.trust, Trust::TrustedLan));
    assert!(matches!(o.bind.ip, IpAddress::V4([0, 0, 0, 0])));
    follower_options_pin(&mut o, "ab");
    assert!(matches!(&o.trust, Trust::Pinned(p) if p == "ab"));
    follower_options_pin(&mut o, "");
    assert!(matches!(o.trust, Trust::TrustedLan));
    follower_options_fallback(&mut o, 7, 0, 30000, 1001, true).unwrap();
    assert_eq!(o.fallback_position, Position::from_frames(7));
    assert!(follower_options_fallback(&mut o, 7, 0, 29, 1, false).is_err());
    follower_options_diagnostics(&mut o, true);
    assert!(o.clock_diagnostics);
    follower_options_timing(&mut o, 1, 2, 3, 4, 5, 6, 7, 8);
    assert_eq!(o.timing.steady_probe, 2);
    follower_options_bind(&mut o, endpoint_any_ipv4(9000).unwrap());
    assert_eq!(o.bind.port, 9000);
    let d = Timing::default();
    assert!(d.validate().is_ok());
}

#[test]
fn discovered_leaders_pin_their_fingerprint_at_an_advertised_address() {
    let a = endpoint_ipv4(&[192, 168, 1, 2], 4443).unwrap();
    let b = endpoint_ipv4(&[192, 168, 1, 3], 4443).unwrap();
    let leader = DiscoveredLeader {
        service_name: "studio-01020304._ethersync._udp.local.".to_string(),
        identity: "id".to_string(),
        name: "studio".to_string(),
        protocol_version: 1,
        addresses: vec![a],
        fingerprint: "e3b0".to_string(),
    };
    let o = FollowerOptions::discovered(&leader, &a).unwrap();
    assert!(matches!(&o.trust, Trust::Pinned(p) if p == "e3b0"));
    assert!(matches!(
        FollowerOptions::discovered(&leader, &b),
        Err(EngineError::Invalid("address is not in discovered service"))
    ));
    let old = DiscoveredLeader {
        protocol_version: 2,
        ..leader
    };
    assert!(matches!(
        FollowerOptions::discovered(&old, &a),
        Err(EngineError::Protocol(Error::Version(2)))
    ));
}

#[test]
fn discovery_options_collect_interfaces_and_addresses() {
    let mut d = discovery_options_new();
    discovery_options_interface(&mut d, "en0");
    discovery_options_address(&mut d, IpAddress::V6([0; 16]));
    assert_eq!(d.interfaces, vec!["en0".to_string()]);
    assert_eq!(d.addresses.len(), 1);
    let e = Endpoint {
        ip: IpAddress::V4([1, 2, 3, 4]),
        port: 1,
        scope_id: 0,
    };
    assert!(same_endpoint(&e, &e.clone()));
}

#[test]
fn typed_endpoints_validate_and_preserve_ipv6_scope() {
    assert!(endpoint_ipv4(&[127, 0, 0], 4443).is_err());
    assert!(endpoint_ipv4(&[127, 0, 0, 1], 65536).is_err());
    assert!(endpoint_ipv6(&[0; 15], 4443, 0).is_err());
    let mut fe80_1 = [0u8; 16];
    fe80_1[0] = 0xfe;
    fe80_1[1] = 0x80;
    fe80_1[15] = 1;
    let endpoint = endpoint_ipv6(&fe80_1, 4443, 7).unwrap();
    assert_eq!(endpoint_port(&endpoint), 4443);
    assert_eq!(endpoint.scope_id, 7);
    assert!(follower_options_endpoint(&endpoint).is_ok());
    assert!(follower_options_endpoint(&endpoint_loopback(0).unwrap()).is_err());
    assert!(follower_options_endpoint(&endpoint_any_ipv4(4443).unwrap()).is_err());
    let mut options = leader_options_new();
    leader_options_bind_endpoint(&mut options, &endpoint_loopback(0).unwrap());
    assert_eq!(options.bind.port, 0);
}

#[test]
fn engines_check_options_before_starting() {
    let mut f = follower_options_new(endpoint_loopback(4443).unwrap());
    assert!(validate_follower(&f, true).is_ok());
    assert!(matches!(validate_follower(&f, false), Err(EngineError::Invalid("correction policy"))));
    let mut v6 = [0u8; 16];
    v6[15] = 1;
    follower_options_bind(&mut f, endpoint_ipv6(&v6, 0, 0).unwrap());
    assert!(matches!(
        validate_follower(&f, true),
        Err(EngineError::Invalid("bind/address families differ"))
    ));
    follower_options_bind(&mut f, endpoint_any_ipv4(0).unwrap());
    follower_options_pin(&mut f, "abc");
    match validate_follower(&f, true) {
        Err(EngineError::Transport(m)) => {
            assert_eq!(m, "certificate pin must contain 64 hexadecimal digits")
        }
        other => panic!("unexpected {other:?}"),
    }
    follower_options_timing(&mut f, 0, 1, 1, 1, 1, 1, 1, 1);
    assert!(matches!(validate_follower(&f, true), Err(EngineError::Invalid(_))));
    let mut l = leader_options_new();
    assert!(validate_leader_options(&l).is_ok());
    leader_options_name(&mut l, &"é".repeat(32));
    assert!(validate_leader_options(&l).is_err());
    leader_options_name(&mut l, &"é".repeat(31));
    assert!(validate_leader_options(&l).is_ok());
}

#[test]
fn errors_describe_themselves() {
    assert_eq!(EngineError::Shutdown.to_string(), "worker has shut down");
    assert_eq!(
        EngineError::Invalid("correction policy").to_string(),
        "invalid configuration: correction policy"
    );
    assert_eq!(
        EngineError::Protocol(Error::Version(2)).to_string(),
        "protocol: unsupported Tidkod protocol version 2"
    );
    assert_eq!(
        TransportError::Closed {
            code: 7,
            reason: "bye".to_string()
        }
        .to_string(),
        "application closed (7): bye"
    );
    assert_eq!(TransportError::Reset(3).stream_error(), Some(3));
    assert_eq!(TransportError::Stop(1 << 40).stream_error(), None);
    assert_eq!(
        TransportError::Closed {
            code: 9,
            reason: "x".to_string()
        }
        .session_error(),
        Some((9, "x".to_string()))
    );
    assert_eq!(TransportError::Web("w".to_string()).session_error(), None);
}

#[test]
fn discovery_lists_leaders_by_index() {
    let a = endpoint_ipv4(&[10, 0, 0, 7], 4443).unwrap();
    let b = endpoint_ipv4(&[10, 0, 0, 8], 4443).unwrap();
    let leader = DiscoveredLeader {
        service_name: "stage-0a0b0c0d._ethersync._udp.local.".to_string(),
        identity: "desk".to_string(),
        name: "stage".to_string(),
        protocol_version: 1,
        addresses: vec![a, b],
        fingerprint: "ab".repeat(32),
    };
    let old = DiscoveredLeader {
        protocol_version: 3,
        addresses: vec![a],
        ..leader.clone()
    };
    let d = Discovery { leaders: vec![leader, old] };
    assert_eq!(discovery_name(&d, 0), Ok("stage".to_string()));
    assert_eq!(discovery_identity(&d, 0), Ok("desk".to_string()));
    assert_eq!(discovery_fingerprint(&d, 0), Ok("ab".repeat(32)));
    assert_eq!(discovery_version(&d, 1), Ok(3));
    assert_eq!(discovery_address_count(&d, 0), Ok(2));
    assert!(same_endpoint(&discovery_address(&d, 0, 1).unwrap(), &b));
    assert_eq!(discovery_name(&d, 2), Err("discovery index".to_string()));
    assert!(matches!(discovery_address(&d, 0, 2), Err(e) if e == "address index"));
    assert!(matches!(discovery_address(&d, 5, 0), Err(e) if e == "discovery index"));
    let o = follower_options_discovered(&d, 0, 1).unwrap();
    assert!(same_endpoint(&o.address, &b));
    assert!(matches!(&o.trust, Trust::Pinned(p) if *p == "ab".repeat(32)));
    assert!(matches!(follower_options_discovered(&d, 0, 2), Err(e) if e == "address index"));
    assert!(matches!(follower_options_discovered(&d, 9, 0), Err(e) if e == "discovery index"));
    assert!(matches!(
        follower_options_discovered(&d, 1, 0),
        Err(e) if e == "protocol: unsupported Tidkod protocol version 3"
    ));
}

#[test]
fn fallback_timeline_is_paused_at_the_configured_position() {
    let mut o = follower_options_new(endpoint_loopback(4443).unwrap());
    follower_options_fallback(&mut o, 120, 5, 25, 1, false).unwrap();
    let t = fallback(&o);
    assert_eq!(t.anchor.position, Position { frames: 120, subframe: 5 });
    assert_eq!(t.anchor.time_ns, 0);
    assert_eq!(t.anchor.rate.numerator(), 0);
    assert_eq!(t.format.numerator(), 25);
    assert_eq!(t.revision, 0);
    assert_eq!(t.scheduled_len, 0);
}
