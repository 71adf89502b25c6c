use ethersync_protocol::timeline::Timeline;
use ethersync_protocol::wire::{self, ScheduledChange, Snapshot};
use ethersync_protocol::{decode_probe, decode_snapshot, encode, validate_snapshot, Error};

fn unhex(s: &str) -> Vec<u8> {
    let s = s.trim();
    (0..s.len())
        .step_by(2)
        .map(|i| u8::from_str_radix(&s[i..i + 2], 16).unwrap())
        .collect()
}

const PROBE_HEX: &str = "08011001 18e807 20dc0b 28e60b";

fn probe_fixture() -> Vec<u8> {
    unhex(&PROBE_HEX.replace(' ', ""))
}

fn paused_fixture() -> Vec<u8> {
    let t = Timeline {
        session: [1; 16],
        revision: 1,
        ..Default::default()
    };
    encode(&t.wire()).unwrap()
}

#[test]
fn golden_fixtures() {
    let bytes = probe_fixture();
    let p = decode_probe(&bytes).unwrap();
    assert_eq!((p.sequence, p.t1, p.t2, p.t3), (1, 1000, 1500, 1510));
    assert_eq!(encode(&p).unwrap(), bytes);
    assert!(bytes.len() < 64);
    let bytes = paused_fixture();
    let s = decode_snapshot(&bytes).unwrap();
    assert_eq!(s.session, [1; 16]);
    assert_eq!(
        s.anchor.as_ref().unwrap().position.as_ref().unwrap().frames,
        0
    );
    assert_eq!(encode(&s).unwrap(), bytes);
    assert!(bytes.len() < 128);
}

#[test]
fn paused_snapshot_has_the_expected_bytes() {
    let expected = unhex(
        "0801121001010101010101010101010101010101180128013001\
         3a04081e1001420612001a021001",
    );
    assert_eq!(paused_fixture(), expected);
}

#[test]
fn rejects_invalid_and_oversize() {
    let mut s = decode_snapshot(&paused_fixture()).unwrap();
    s.version = 2;
    assert!(matches!(
        decode_snapshot(&encode(&s).unwrap()),
        Err(Error::Version(2))
    ));
    s.version = 1;
    s.source_kind = 99;
    assert!(validate_snapshot(&s).is_err());
    s.source_kind = 1;
    s.anchor
        .as_mut()
        .unwrap()
        .rate
        .as_mut()
        .unwrap()
        .denominator = 0;
    assert!(validate_snapshot(&s).is_err());
    assert!(matches!(decode_snapshot(&[0; 513]), Err(Error::Size)));
    assert!(matches!(decode_probe(&[0; 513]), Err(Error::Size)));
    assert!(decode_snapshot(&[0x80]).is_err());
    assert!(encode(&Snapshot {
        session: vec![0; 513],
        ..Default::default()
    })
    .is_err());
}

#[test]
fn random_malformed_messages_never_panic() {
    let mut seed = 0u64;
    for len in 0..=512 {
        let bytes: Vec<u8> = (0..len)
            .map(|_| {
                seed = seed.wrapping_mul(6364136223846793005).wrapping_add(1);
                (seed >> 32) as u8
            })
            .collect();
        let _ = decode_snapshot(&bytes);
        let _ = decode_probe(&bytes);
    }
}

#[test]
fn schedule_order_and_size() {
    let mut s = decode_snapshot(&paused_fixture()).unwrap();
    for i in 1..=4 {
        let mut a = s.anchor.unwrap();
        a.time_ns = i * 1_000_000_000;
        s.scheduled.push(ScheduledChange {
            discontinuity: i,
            anchor: Some(a),
        });
    }
    validate_snapshot(&s).unwrap();
    assert!(encode(&s).unwrap().len() <= 512);
    s.scheduled[1].discontinuity = 1;
    assert!(validate_snapshot(&s).is_err());
}

#[test]
fn probe_direction_timestamps_are_unambiguous() {
    let p = wire::Probe {
        version: 1,
        sequence: 1,
        t1: 1,
        t2: 0,
        t3: 2,
    };
    assert!(decode_probe(&encode(&p).unwrap()).is_err());
    let p = wire::Probe { t2: 2, t3: 0, ..p };
    assert!(decode_probe(&encode(&p).unwrap()).is_err());
}

#[test]
fn decode_errors_are_distinguished() {
    assert_eq!(decode_snapshot(&[0x80]).unwrap_err(), Error::Decode);
    assert_eq!(decode_probe(&[0x08]).unwrap_err(), Error::Decode);
    let p = wire::Probe {
        version: 3,
        sequence: 1,
        t1: 1,
        t2: 0,
        t3: 0,
    };
    assert_eq!(decode_probe(&encode(&p).unwrap()).unwrap_err(), Error::Version(3));
    assert_eq!(Error::Version(3).to_string(), "unsupported Tidkod protocol version 3");
    assert_eq!(Error::Size.to_string(), "application message exceeds 512 bytes");
    assert_eq!(Error::Decode.to_string(), "malformed protobuf");
    assert_eq!(
        Error::Invalid("rate").to_string(),
        "invalid timecode or wire value: rate"
    );
}

#[test]
fn unknown_fields_are_skipped() {
    let mut bytes = probe_fixture();
    bytes.extend_from_slice(&[0x78, 0x05]);
    let p = decode_probe(&bytes).unwrap();
    assert_eq!((p.sequence, p.t1, p.t2, p.t3), (1, 1000, 1500, 1510));
}

#[test]
fn snapshot_round_trips_through_the_timeline() {
    let s = decode_snapshot(&paused_fixture()).unwrap();
    let t = Timeline::from_wire(&s).unwrap();
    assert_eq!(t.session, [1; 16]);
    assert_eq!(t.revision, 1);
    assert_eq!(encode(&t.wire()).unwrap(), paused_fixture());
}

#[test]
fn unknown_groups_are_skipped_whole() {
    let p = wire::Probe {
        version: 1,
        sequence: 7,
        t1: 100,
        t2: 200,
        t3: 300,
    };
    let base = encode(&p).unwrap();
    let with = |extra: &[u8]| {
        let mut b = base.clone();
        b.extend_from_slice(extra);
        b
    };
    let q = decode_probe(&with(&[0x4b, 0x08, 0x05, 0x4c])).unwrap();
    assert_eq!((q.version, q.sequence, q.t1, q.t2, q.t3), (1, 7, 100, 200, 300));
    let q = decode_probe(&with(&[0x4b, 0x53, 0x10, 0x01, 0x54, 0x4c])).unwrap();
    assert_eq!(q.sequence, 7);
    assert_eq!(decode_probe(&with(&[0x4b, 0x54])).unwrap_err(), Error::Decode);
    assert_eq!(decode_probe(&with(&[0x4b, 0x08, 0x05])).unwrap_err(), Error::Decode);
    assert_eq!(decode_probe(&with(&[0x4c])).unwrap_err(), Error::Decode);
    assert_eq!(decode_probe(&[0x0b, 0x0c]).unwrap_err(), Error::Decode);
}
