use ethersync_protocol::clock::{offset2, path_delay, Exchange};
use ethersync_protocol::output::ClockBridge;
use ethersync_protocol::Error;

#[test]
fn clock_bridge_bounds_conversion_without_pairing_bias() {
    let b = ClockBridge::new(100, 10_000, 110).unwrap();
    let at = b.convert(10_100).unwrap();
    assert_eq!(at, 205);
    assert!(b.span_ns() as f64 / 2. + 1. >= 5.);
    assert!(b.convert(0).is_err());
    assert!(ClockBridge::new(110, 100, 100).is_err());
    assert!(ClockBridge::new(0, 0, u64::MAX).is_err());
}

#[test]
fn bridge_converts_its_own_sample_to_the_bracket_midpoint() {
    let b = ClockBridge::new(1_000, 77, 1_011).unwrap();
    assert_eq!(b.convert(77), Ok(1_005));
    assert_eq!(b.offset_ns(), 1_005 - 77);
    assert_eq!(
        ClockBridge::new(5, 0, 4).err(),
        Some(Error::Invalid("clock bridge bracket"))
    );
    assert_eq!(
        b.convert(u64::MAX),
        Err(Error::Invalid("output timestamp outside engine clock range"))
    );
}

#[test]
fn exchanges_are_screened_and_measured_exactly() {
    let e = Exchange {
        t1: 1_000_000_000,
        t2: 1_001_000_000,
        t3: 1_001_010_000,
        t4: 1_002_010_000,
    };
    assert_eq!(path_delay(e), Some(2_000_000));
    assert_eq!(offset2(e), 0);
    let late = Exchange { t4: 1_600_000_000, ..e };
    assert_eq!(path_delay(late), None);
    let backwards = Exchange { t3: 999, ..e };
    assert_eq!(path_delay(backwards), None);
    let slow_leader = Exchange { t3: 1_004_000_000, ..e };
    assert_eq!(path_delay(slow_leader), None);
    let ahead = Exchange {
        t1: 100,
        t2: 1_100,
        t3: 1_100,
        t4: 120,
    };
    assert_eq!(path_delay(ahead), Some(20));
    assert_eq!(offset2(ahead), 2_000 - 20);
}
