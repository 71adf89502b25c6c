use ethersync_protocol::config::{
    saturating_ns, validate_leader, EngineError, MonotonicClock, Timing, WorkerTiming,
};
use ethersync_protocol::text::to_hex;
use ethersync_protocol::tls::{
    certificate_accepted, check_client_pin, fingerprint, validate_pin, TransportError,
};

#[test]
fn fingerprint_is_lower_hex_sha256() {
    assert_eq!(
        fingerprint(&[]),
        "e3b0c44298fc1c149afbf4c8996fb92427ae41e4649b934ca495991b7852b855"
    );
    assert_eq!(
        fingerprint(b"abc"),
        "ba7816bf8f01cfea414140de5dae2223b00361a396177a9cb410ff61f20015ad"
    );
}

#[test]
fn pins_need_sixty_four_hex_digits() {
    let good = "E3b0c44298fc1c149afbf4c8996fb92427ae41e4649b934ca495991b7852b855";
    assert!(validate_pin(good).is_ok());
    assert!(matches!(validate_pin("00:00:00:00"), Err(TransportError::Invalid(_))));
    let bad = "g3b0c44298fc1c149afbf4c8996fb92427ae41e4649b934ca495991b7852b855";
    assert!(validate_pin(bad).is_err());
    assert!(validate_pin(&good[1..]).is_err());
}

#[test]
fn hex_is_lower_case_and_padded() {
    assert_eq!(to_hex(&[0x00, 0x0f, 0xa0, 0xff]), "000fa0ff");
    assert_eq!(to_hex(&[]), "");
}

#[test]
fn default_timing_is_valid() {
    let t = Timing::default();
    assert!(t.validate().is_ok());
    assert_eq!(t.steady_probe, 250_000_000);
    let mut bad = t;
    bad.retry_min = bad.retry_max + 1;
    assert!(matches!(bad.validate(), Err(EngineError::Invalid(_))));
    let mut bad = t;
    bad.heartbeat = 0;
    assert!(bad.validate().is_err());
    let mut bad = t;
    bad.connect_timeout = 3_600_000_000_001;
    assert!(bad.validate().is_err());
}

#[test]
fn leader_settings_are_checked() {
    let t = Timing::default();
    assert!(validate_leader("studio", "", 15, &t).is_ok());
    assert!(validate_leader("", "", 15, &t).is_err());
    assert!(validate_leader(&"x".repeat(64), "", 15, &t).is_err());
    assert!(validate_leader("studio", &"x".repeat(101), 15, &t).is_err());
    assert!(validate_leader("studio", "", 0, &t).is_err());
    assert!(validate_leader("studio", "", 1025, &t).is_err());
}

#[test]
fn clock_is_monotonic_and_counters_start_at_zero() {
    let c = MonotonicClock::start();
    let a = c.now_ns();
    let b = c.now_ns();
    assert!(a <= b);
    let w = WorkerTiming::default();
    assert_eq!((w.passes, w.max_pass_ns, w.max_deadline_lateness_ns), (0, 0, 0));
}

#[test]
fn pinned_certificates_match_their_fingerprint_in_either_case() {
    let cert = b"certificate";
    let fp = fingerprint(cert);
    assert!(certificate_accepted(None, cert));
    assert!(certificate_accepted(Some(&fp), cert));
    assert!(certificate_accepted(Some(&fp.to_uppercase()), cert));
    assert!(!certificate_accepted(Some(&fingerprint(b"other")), cert));
    assert!(!certificate_accepted(Some(&fp[1..]), cert));
    assert!(check_client_pin(None).is_ok());
    assert!(check_client_pin(Some(&fp)).is_ok());
    assert!(matches!(check_client_pin(Some("00:00:00:00")), Err(TransportError::Invalid(_))));
}

#[test]
fn elapsed_nanoseconds_saturate_at_the_timestamp_range() {
    assert_eq!(saturating_ns(0), 0);
    assert_eq!(saturating_ns(1_234_567_890), 1_234_567_890);
    assert_eq!(saturating_ns(i64::MAX as u128), i64::MAX as u64);
    assert_eq!(saturating_ns(i64::MAX as u128 + 1), i64::MAX as u64);
    assert_eq!(saturating_ns(u128::MAX), i64::MAX as u64);
    let clock = MonotonicClock::start();
    let a = clock.now_ns();
    let b = clock.now_ns();
    assert!(a <= b && b <= i64::MAX as u64);
}
