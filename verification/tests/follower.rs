use ethersync_protocol::boundary::first;
use ethersync_protocol::follower::{same_session, Confirmation, SnapshotGate, SnapshotOutcome};
use ethersync_protocol::timeline::{Anchor, SourceHealth, SourceKind, Timeline};
use ethersync_protocol::tracking::{
    apply_sample, check_sample, source_health, track_sample, tracked_trajectory,
};
use ethersync_protocol::{Error, FrameFormat, Position, Rate};

fn state() -> Timeline {
    Timeline {
        session: [1; 16],
        revision: 1,
        anchor: Anchor {
            time_ns: 1_000_000_000,
            position: Position::from_frames(30),
            rate: Rate::normal(),
        },
        ..Default::default()
    }
}

#[test]
fn stale_revisions_and_other_sessions_are_ignored() {
    let mut gate = SnapshotGate::new();
    gate.connected();
    let (current, out) = gate.state(&Timeline::default(), state(), 0, 1_000_000_000).unwrap();
    assert_eq!(out, SnapshotOutcome::NewSession);
    let mut t = state();
    t.anchor.position = Position::from_frames(9000);
    assert!(gate.state(&current, t, 0, 3_000_000_000).is_none());
    t.session = [2; 16];
    assert!(gate.state(&current, t, 0, 3_000_000_000).is_none());
    gate.connected();
    let (next, out) = gate.state(&current, t, 0, 3_000_000_000).unwrap();
    assert_eq!(out, SnapshotOutcome::NewSession);
    assert!(gate.state(&next, state(), 0, 3_000_000_000).is_none());
}

#[test]
fn newer_revision_with_a_discontinuity_is_reported() {
    let mut gate = SnapshotGate::new();
    let (current, _) = gate.state(&Timeline::default(), state(), 0, 1_000_000_000).unwrap();
    let mut t = state();
    t.revision = 2;
    t.discontinuity = 1;
    t.anchor = Anchor {
        time_ns: 2_000_000_000,
        position: Position::from_frames(900),
        rate: Rate::new(-2, 1).unwrap(),
    };
    let (now_showing, out) = gate.state(&current, t, 0, 3_000_000_000).unwrap();
    assert_eq!(out, SnapshotOutcome::Discontinuity(1));
    assert_eq!(now_showing.at(3_000_000_000).0, Position::from_frames(840));
    assert!(gate.state(&now_showing, t, 1, 3_000_000_000).is_none());
}

#[test]
fn a_higher_revision_cannot_undo_a_discontinuity() {
    let mut gate = SnapshotGate::new();
    let t = Timeline {
        session: [1; 16],
        revision: 2,
        discontinuity: 4,
        ..Default::default()
    };
    let (current, _) = gate.state(&Timeline::default(), t, 0, 1).unwrap();
    let rollback = Timeline {
        revision: 3,
        discontinuity: 3,
        ..t
    };
    assert!(gate.state(&current, rollback, 4, 2).is_none());
}

#[test]
fn format_changes_require_a_discontinuity() {
    let mut gate = SnapshotGate::new();
    let t = Timeline {
        session: [1; 16],
        revision: 1,
        ..Default::default()
    };
    let (current, _) = gate.state(&Timeline::default(), t, 0, 1).unwrap();
    let mut change = Timeline {
        revision: 2,
        format: FrameFormat::new(25, 1, false).unwrap(),
        ..t
    };
    assert!(gate.state(&current, change, 0, 2).is_none());
    change.discontinuity = 1;
    let (u, out) = gate.state(&current, change, 0, 3).unwrap();
    assert_eq!(out, SnapshotOutcome::Discontinuity(1));
    assert_eq!(u.format, change.format);
}

#[test]
fn tick_reports_a_discontinuity_once() {
    let mut gate = SnapshotGate::new();
    let mut t = state();
    assert_eq!(gate.tick(&mut t, 0), None);
    assert_eq!(gate.tick(&mut t, 1), Some(1));
    assert_eq!(gate.tick(&mut t, 1), None);
    gate.measured([9; 16], 5);
    assert_eq!(gate.tick(&mut t, 1), None);
    assert!(!SnapshotGate::new().has_session());
}

#[test]
fn alternating_errors_do_not_confirm() {
    let mut c = Confirmation::new();
    for i in 0..10 {
        let sign = if i % 2 == 0 { 1 } else { -1 };
        assert!(!c.large(sign, true, 3));
    }
    let mut c = Confirmation::new();
    assert!(!c.large(1, true, 3));
    assert!(!c.large(1, true, 3));
    assert!(c.large(1, true, 3));
    assert_eq!(c.count, 0);
    assert!(!c.large(1, false, 1) || c.count == 0);
    c.small();
    assert_eq!((c.count, c.sign), (0, 1));
    c.reset();
    assert_eq!((c.count, c.sign), (0, 0));
}

#[test]
fn first_finds_the_earliest_point_of_a_monotonic_condition() {
    assert_eq!(first(0, 100, |t| t >= 37), Some(37));
    assert_eq!(first(40, 100, |t| t >= 37), Some(40));
    assert_eq!(first(0, 100, |t| t >= 200), None);
    assert_eq!(first(5, 4, |_| true), None);
    assert_eq!(first(0, u64::MAX, |t| t >= u64::MAX - 1), Some(u64::MAX - 1));
}

#[test]
fn source_samples_are_checked_and_health_times_out() {
    assert_eq!(source_health(None, 10, 5), SourceHealth::Degraded);
    assert_eq!(source_health(Some(5), 10, 5), SourceHealth::Healthy);
    assert_eq!(source_health(Some(4), 10, 5), SourceHealth::Degraded);
    assert_eq!(source_health(Some(20), 10, 5), SourceHealth::Healthy);
    assert_eq!(
        check_sample(SourceKind::Generated, None, 1, 2),
        Err(Error::Invalid("source is not tracked"))
    );
    assert!(check_sample(SourceKind::External, None, 3, 2).is_err());
    assert!(check_sample(SourceKind::External, Some(2), 2, 5).is_err());
    assert!(check_sample(SourceKind::External, Some(2), 3, 5).is_ok());
    let mut t = state();
    t.source_health = SourceHealth::Degraded;
    apply_sample(&mut t, 5, Position::from_frames(3), Rate::normal(), true);
    assert_eq!((t.discontinuity, t.source_health), (1, SourceHealth::Healthy));
    assert_eq!(t.anchor.time_ns, 5);
    assert!(same_session(&[1; 16], &t.session));
    assert!(!same_session(&[2; 16], &t.session));
}

#[test]
fn tracked_samples_jump_after_three_large_errors_or_a_new_hint() {
    let frame: i128 = 4294967296;
    let mut jumps = Confirmation::new();
    let normal = Rate::normal();
    assert_eq!(track_sample(&mut jumps, true, false, 0, None, normal), (true, None));
    assert_eq!(track_sample(&mut jumps, false, true, 0, None, normal), (true, None));
    assert_eq!(track_sample(&mut jumps, false, false, frame, None, normal), (false, None));
    assert_eq!(jumps.count, 0);
    assert_eq!(track_sample(&mut jumps, false, false, frame + 1, None, normal), (false, None));
    assert_eq!(track_sample(&mut jumps, false, false, 2 * frame, None, normal), (false, None));
    assert_eq!((jumps.count, jumps.sign), (2, 1));
    assert_eq!(track_sample(&mut jumps, false, false, -2 * frame, None, normal), (false, None));
    assert_eq!((jumps.count, jumps.sign), (1, -1));
    assert_eq!(track_sample(&mut jumps, false, false, -2 * frame, None, normal), (false, None));
    assert_eq!(track_sample(&mut jumps, false, false, -frame - 1, None, normal), (true, None));
    assert_eq!(jumps.count, 0);
    assert_eq!(track_sample(&mut jumps, false, false, 0, Some(normal), normal), (false, None));
    let half = Rate::new(1, 2).unwrap();
    assert_eq!(track_sample(&mut jumps, false, false, 0, Some(half), normal), (true, Some(half)));
}

#[test]
fn tracked_trajectory_takes_the_sample_or_the_nudge_and_the_hint_first() {
    let sample = Position::from_frames(10);
    let nudged = Position::from_frames(9);
    let half = Rate::new(1, 2).unwrap();
    let double = Rate::new(2, 1).unwrap();
    let normal = Rate::normal();
    assert_eq!(tracked_trajectory(true, sample, nudged, Some(half), Some(double), normal), (sample, half));
    assert_eq!(tracked_trajectory(false, sample, nudged, None, Some(double), normal), (nudged, double));
    assert_eq!(tracked_trajectory(false, sample, nudged, None, None, normal), (nudged, normal));
}
