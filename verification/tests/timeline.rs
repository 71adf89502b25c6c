use ethersync_protocol::output::sample_time;
use ethersync_protocol::timeline::{change_timeline, presentation_time, Change, Timeline};
use ethersync_protocol::{Error, FrameFormat, Position, Rate};

#[test]
fn immediate_change_replaces_trajectory_with_a_new_discontinuity() {
    let mut t = Timeline::default();
    change_timeline(&mut t, Change::Transport(Position::from_frames(100), Rate::normal()), None, 1_000_000_000).unwrap();
    assert_eq!(t.discontinuity, 1);
    assert_eq!(t.anchor.time_ns, 1_000_000_000);
    assert_eq!(t.anchor.position, Position::from_frames(100));
    let (p, r, d) = t.at(2_000_000_000);
    assert_eq!(p, Position::from_frames(130));
    assert_eq!(r, Rate::normal());
    assert_eq!(d, 1);
}

#[test]
fn scheduled_changes_apply_at_their_time_in_order() {
    let mut t = Timeline::default();
    change_timeline(&mut t, Change::Rate(Rate::normal()), None, 0).unwrap();
    change_timeline(&mut t, Change::Seek(Position::from_frames(900)), Some(3_000_000_000), 1_000_000_000).unwrap();
    assert_eq!(t.scheduled_len, 1);
    assert_eq!(t.scheduled[0].discontinuity, 2);
    let (p, _, d) = t.at(2_000_000_000);
    assert_eq!((p, d), (Position::from_frames(60), 1));
    let (p, _, d) = t.at(3_500_000_000);
    assert_eq!((p, d), (Position::from_frames(915), 2));
    assert!(change_timeline(&mut t, Change::Rate(Rate::paused()), Some(2_500_000_000), 1_000_000_000).is_err());
    assert_eq!(t.scheduled_len, 1);
}

#[test]
fn schedule_holds_at_most_four_changes() {
    let mut t = Timeline::default();
    for i in 1..=4u64 {
        change_timeline(&mut t, Change::Rate(Rate::normal()), Some(i * 1_000_000_000), 0).unwrap();
    }
    assert_eq!(t.scheduled_len, 4);
    let e = change_timeline(&mut t, Change::Rate(Rate::normal()), Some(9_000_000_000), 0);
    assert_eq!(e, Err(Error::Invalid("schedule full or non-increasing")));
    assert!(change_timeline(&mut t, Change::Rate(Rate::normal()), Some(u64::MAX), 0).is_err());
}

#[test]
fn latching_keeps_only_later_entries() {
    let mut t = Timeline::default();
    for i in 1..=3u64 {
        change_timeline(&mut t, Change::Rate(Rate::normal()), Some(i * 1_000_000_000), 0).unwrap();
    }
    t.latch(2);
    assert_eq!(t.scheduled_len, 1);
    assert_eq!(t.scheduled[0].discontinuity, 3);
}

#[test]
fn presentation_delay_is_checked() {
    assert_eq!(presentation_time(1_000_000_000, 50_000_000), Ok(1_050_000_000));
    assert!(presentation_time(i64::MAX as u64, 1).is_err());
    assert!(presentation_time(u64::MAX, 1).is_err());
}

#[test]
fn sample_times_are_exact() {
    assert_eq!(sample_time(1_000, 48_000, 48_000), Ok(1_000_001_000));
    assert_eq!(sample_time(0, 1, 44_100), Ok(22_675));
    assert_eq!(sample_time(0, 1, 0), Err(Error::Invalid("zero sample rate")));
    assert!(sample_time(i64::MAX as u64, 1, 1).is_err());
    assert_eq!(sample_time(0, u64::MAX, 1), Err(Error::Invalid("sample timestamp overflow")));
}

#[test]
fn timeline_format_defaults_to_thirty_frames() {
    let t = Timeline::default();
    assert_eq!(t.format, FrameFormat::default());
    assert_eq!(t.format.numerator(), 30);
}

#[test]
fn discontinuity_in_force_never_decreases_with_time() {
    let mut t = Timeline::default();
    change_timeline(&mut t, Change::Rate(Rate::normal()), None, 0).unwrap();
    change_timeline(&mut t, Change::Seek(Position::from_frames(900)), Some(3_000_000_000), 1_000_000_000).unwrap();
    change_timeline(&mut t, Change::Rate(Rate::paused()), Some(5_000_000_000), 1_000_000_000).unwrap();
    let times = [0u64, 2_999_999_999, 3_000_000_000, 4_000_000_000, 5_000_000_000, 9_000_000_000];
    let discs: Vec<u64> = times.iter().map(|time| t.at(*time).2).collect();
    assert_eq!(discs, vec![1, 1, 2, 2, 3, 3]);
    assert_eq!(t.at(9_000_000_000).1, Rate::paused());
}
