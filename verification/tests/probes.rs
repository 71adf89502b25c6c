use ethersync_protocol::probes::Probes;
use ethersync_protocol::{decode_probe, encode};

#[test]
fn bounded_matching_rejects_replays_and_evicted_probes() {
    let mut p = Probes::default();
    let mut first = decode_probe(&p.request(1).unwrap()).unwrap();
    first.t2 = 2;
    first.t3 = 3;
    let reply = encode(&first).unwrap();
    assert!(p.reply(&reply, 4).unwrap().is_some());
    assert!(p.reply(&reply, 4).unwrap().is_none());
    let mut evicted = decode_probe(&p.request(2).unwrap()).unwrap();
    evicted.t2 = 3;
    evicted.t3 = 4;
    for n in 3..132 {
        p.request(n).unwrap();
    }
    assert!(p.reply(&encode(&evicted).unwrap(), 140).unwrap().is_none());
    assert!(p.request(u64::MAX).is_err());
}

#[test]
fn invalid_echo_does_not_consume_request_and_stalled_reply_expires() {
    let mut probes = Probes::default();
    let mut p = decode_probe(&probes.request(1_000_000_000).unwrap()).unwrap();
    p.t2 = 2_000_000_000;
    p.t3 = 2_100_000_000;
    assert!(probes
        .reply(&encode(&p).unwrap(), 1_010_000_000)
        .unwrap()
        .is_none());
    p.t3 = p.t2;
    assert!(probes
        .reply(&encode(&p).unwrap(), 1_010_000_000)
        .unwrap()
        .is_some());
    let mut p = decode_probe(&probes.request(2_000_000_000).unwrap()).unwrap();
    p.t2 = 3_000_000_000;
    p.t3 = 33_000_000_000;
    assert!(probes
        .reply(&encode(&p).unwrap(), 32_010_000_000)
        .unwrap()
        .is_none());
}

#[test]
fn publication_is_correlated_to_request_not_reply_order() {
    let mut p = Probes::default();
    let mut a = decode_probe(&p.request(100).unwrap()).unwrap();
    p.publication_finished(110);
    let mut b = decode_probe(&p.request(200).unwrap()).unwrap();
    p.publication_finished(230);
    a.t2 = 1000;
    a.t3 = 1010;
    b.t2 = 1100;
    b.t3 = 1110;
    p.reply(&encode(&b).unwrap(), 300).unwrap().unwrap();
    assert_eq!(p.last_publication_ns(), Some(30));
    p.reply(&encode(&a).unwrap(), 400).unwrap().unwrap();
    assert_eq!(p.last_publication_ns(), Some(10));
    assert!(p.reply(&encode(&a).unwrap(), 500).unwrap().is_none());
    assert_eq!(p.last_publication_ns(), None);
}

#[test]
fn accepted_reply_reports_all_four_timestamps() {
    let mut p = Probes::default();
    let mut q = decode_probe(&p.request(1_000).unwrap()).unwrap();
    assert_eq!((q.version, q.sequence, q.t1, q.t2, q.t3), (1, 1, 1_000, 0, 0));
    q.t2 = 5_000;
    q.t3 = 5_400;
    let e = p.reply(&encode(&q).unwrap(), 2_000).unwrap().unwrap();
    assert_eq!((e.t1, e.t2, e.t3, e.t4), (1_000, 5_000, 5_400, 2_000));
}

#[test]
fn request_rejects_timestamps_beyond_the_signed_range() {
    let mut p = Probes::default();
    assert!(p.request(i64::MAX as u64 + 1).is_err());
    assert!(p.request(i64::MAX as u64).is_ok());
}

#[test]
fn round_trip_longer_than_the_limit_is_dropped() {
    let mut p = Probes::default();
    let mut q = decode_probe(&p.request(0).unwrap()).unwrap();
    q.t2 = 10;
    q.t3 = 10;
    assert!(p.reply(&encode(&q).unwrap(), 500_000_001).unwrap().is_none());
    assert!(p.reply(&encode(&q).unwrap(), 400_000_000).unwrap().is_none());
}

#[test]
fn malformed_reply_is_an_error_and_clears_publication() {
    let mut p = Probes::default();
    let mut q = decode_probe(&p.request(100).unwrap()).unwrap();
    p.publication_finished(150);
    q.t2 = 1;
    q.t3 = 1;
    p.reply(&encode(&q).unwrap(), 200).unwrap().unwrap();
    assert_eq!(p.last_publication_ns(), Some(50));
    assert!(p.reply(&[0x80], 300).is_err());
    assert_eq!(p.last_publication_ns(), None);
}

#[test]
fn publication_before_any_request_or_after_clock_step_back() {
    let mut p = Probes::default();
    p.publication_finished(50);
    assert_eq!(p.last_publication_ns(), None);
    let mut q = decode_probe(&p.request(100).unwrap()).unwrap();
    p.publication_finished(90);
    q.t2 = 5;
    q.t3 = 6;
    p.reply(&encode(&q).unwrap(), 200).unwrap().unwrap();
    assert_eq!(p.last_publication_ns(), None);
}
