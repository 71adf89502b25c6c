use ethersync_protocol::discovery::{
    advertised_host, advertised_instance, advertisement, discovered_leader, DiscoveryTable,
    SERVICE_TYPE,
};
use ethersync_protocol::engine::start_leader;
use ethersync_protocol::options::{
    discovery_options_address, endpoint_ipv6, endpoint_loopback,
    leader_options_bind_endpoint, leader_options_name, leader_options_new, DiscoveredLeader,
    IpAddress,
};
use ethersync_protocol::timeline::SourceKind;
use ethersync_protocol::{FrameFormat, Position, Rate};

const SESSION: [u8; 16] = [
    0x67, 0xe5, 0x50, 0x44, 0x10, 0xb1, 0x42, 0x6f, 0x92, 0x47, 0xbb, 0x68, 0x0e, 0x5f, 0xe0, 0xc8,
];
const PIN: &str = "e3b0c44298fc1c149afbf4c8996fb92427ae41e4649b934ca495991b7852b855";

#[test]
fn advertised_names_fit_a_dns_label() {
    let name = "é".repeat(30);
    let instance = advertised_instance(&name, SESSION);
    assert_eq!(instance, format!("{}-67e55044", "é".repeat(27)));
    assert!(instance.len() <= 63);
    assert_eq!(advertised_instance("studio", SESSION), "studio-67e55044");
    let long = "x".repeat(80);
    assert_eq!(advertised_instance(&long, SESSION).len(), 63);
    assert_eq!(
        advertised_host(SESSION),
        "ethersync-67e55044-10b1-426f-9247-bb680e5fe0c8.local."
    );
    assert_eq!(SERVICE_TYPE, "_ethersync._udp.local.");
}

#[test]
fn advertisements_need_identity_and_a_valid_fingerprint() {
    let a = vec![endpoint_loopback(4443).unwrap()];
    let l = discovered_leader("s", Some("id"), Some(PIN), Some("1"), None, a.clone()).unwrap();
    assert_eq!((l.identity.as_str(), l.name.as_str(), l.protocol_version), ("id", "id", 1));
    assert_eq!(l.addresses.len(), 1);
    let l = discovered_leader("s", Some("id"), Some(PIN), Some("x"), Some("studio"), a.clone()).unwrap();
    assert_eq!((l.name.as_str(), l.protocol_version), ("studio", 0));
    let l = discovered_leader("s", Some("id"), Some(PIN), Some("+7"), None, a.clone()).unwrap();
    assert_eq!(l.protocol_version, 7);
    let l = discovered_leader("s", Some("id"), Some(PIN), Some("4294967296"), None, a.clone()).unwrap();
    assert_eq!(l.protocol_version, 0);
    let l = discovered_leader("s", Some("id"), Some(PIN), None, None, a.clone()).unwrap();
    assert_eq!(l.protocol_version, 0);
    let versions = [("4294967295", 4294967295u32), ("007", 7), ("+", 0), ("", 0), ("12a", 0), ("-1", 0)];
    for (v, expected) in versions {
        let l = discovered_leader("s", Some("id"), Some(PIN), Some(v), None, a.clone()).unwrap();
        assert_eq!(l.protocol_version, expected, "{v}");
    }
    assert!(discovered_leader("s", None, Some(PIN), Some("1"), None, a.clone()).is_none());
    assert!(discovered_leader("s", Some("id"), None, Some("1"), None, a.clone()).is_none());
    assert!(discovered_leader("s", Some("id"), Some("00:00"), Some("1"), None, a).is_none());
}

#[test]
fn fresh_identities_and_sessions_are_version_4_uuids() {
    let o = leader_options_new();
    assert_eq!(o.identity.len(), 36);
    assert_eq!(o.identity.as_bytes()[14], b'4');
    let t = start_leader(FrameFormat::default(), 5, Position::zero(), Rate::normal(), SourceKind::Generated);
    assert_eq!(t.session[6] >> 4, 4);
    assert_eq!(t.session[8] >> 6, 2);
    assert_eq!(t.revision, 1);
}

fn found(service: &str, name: &str) -> DiscoveredLeader {
    DiscoveredLeader {
        service_name: service.to_string(),
        identity: format!("id-{name}"),
        name: name.to_string(),
        protocol_version: 1,
        addresses: vec![endpoint_loopback(4443).unwrap()],
        fingerprint: "0".repeat(64),
    }
}

#[test]
fn discovered_services_are_kept_once_each_in_name_order() {
    let mut table = DiscoveryTable::new();
    table.resolved(found("b._ethersync._udp.local.", "second"));
    table.resolved(found("a._ethersync._udp.local.", "first"));
    table.resolved(found("c._ethersync._udp.local.", "third"));
    let names: Vec<String> = table.leaders().iter().map(|l| l.name.clone()).collect();
    assert_eq!(names, vec!["first", "second", "third"]);
    table.resolved(found("b._ethersync._udp.local.", "renamed"));
    let names: Vec<String> = table.leaders().iter().map(|l| l.name.clone()).collect();
    assert_eq!(names, vec!["first", "renamed", "third"]);
    table.removed("a._ethersync._udp.local.");
    table.removed("missing._ethersync._udp.local.");
    let names: Vec<String> = table.leaders().iter().map(|l| l.service_name.clone()).collect();
    assert_eq!(names, vec!["b._ethersync._udp.local.", "c._ethersync._udp.local."]);
    table.resolved(found("b", "prefix sorts first"));
    assert_eq!(table.leaders()[0].name, "prefix sorts first");
    table.clear();
    assert!(table.leaders().is_empty());
}

#[test]
fn advertisement_describes_the_registered_service() {
    let mut o = leader_options_new();
    leader_options_name(&mut o, "Stage left");
    let session = [0xab; 16];
    let fp = "1".repeat(64);
    let plan = advertisement(&o, session, &fp, 4443);
    assert_eq!(plan.instance, advertised_instance("Stage left", session));
    assert_eq!(plan.host, advertised_host(session));
    assert_eq!(plan.port, 4443);
    let props: Vec<(&str, &str)> = plan.properties.iter().map(|(k, v)| (k.as_str(), v.as_str())).collect();
    assert_eq!(
        props,
        vec![
            ("id", o.identity.as_str()),
            ("name", "Stage left"),
            ("v", "1"),
            ("fp", fp.as_str()),
            ("transport", "moq-lite-05"),
        ]
    );
    // bound to the IPv4 wildcard: automatic IPv4 addresses only
    assert!(plan.addresses.is_empty());
    assert!(plan.ipv4_only);
    assert_eq!(plan.interface_v6, None);
    // a concrete bind address is advertised itself
    leader_options_bind_endpoint(&mut o, &endpoint_loopback(9000).unwrap());
    let plan = advertisement(&o, session, &fp, 9000);
    assert!(matches!(plan.addresses.as_slice(), [IpAddress::V4([127, 0, 0, 1])]));
    assert!(!plan.ipv4_only);
    // configured addresses win
    discovery_options_address(&mut o.discovery, IpAddress::V4([10, 0, 0, 2]));
    let plan = advertisement(&o, session, &fp, 9000);
    assert!(matches!(plan.addresses.as_slice(), [IpAddress::V4([10, 0, 0, 2])]));
    // a scoped IPv6 bind limits advertisement to that interface
    let mut v6 = leader_options_new();
    let mut link_local = [0u8; 16];
    link_local[0] = 0xfe;
    link_local[1] = 0x80;
    link_local[15] = 1;
    leader_options_bind_endpoint(&mut v6, &endpoint_ipv6(&link_local, 0, 3).unwrap());
    let plan = advertisement(&v6, session, &fp, 4443);
    assert_eq!(plan.interface_v6, Some(3));
    assert!(!plan.ipv4_only);
}
