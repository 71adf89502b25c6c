use ethersync_protocol::config::Timing;
use ethersync_protocol::engine::Backoff;
use ethersync_protocol::leader::LeaderState;
use ethersync_protocol::link::FollowerLink;
use ethersync_protocol::timeline::{Change, SourceHealth, SourceKind, SyncState, Timeline};
use ethersync_protocol::{decode_probe, decode_snapshot, Error, FrameFormat, Position, Rate};

const SECOND: u64 = 1_000_000_000;

fn leader(kind: SourceKind) -> LeaderState {
    let format = FrameFormat::new(25, 1, false).unwrap();
    LeaderState::start(format, 10 * SECOND, Position::from_frames(100), Rate::normal(), kind, Timing::default())
}

fn read(bytes: &[u8]) -> Timeline {
    Timeline::from_wire(&decode_snapshot(bytes).unwrap()).unwrap()
}

#[test]
fn leader_starts_with_its_first_snapshot() {
    let s = leader(SourceKind::Generated);
    assert_eq!(s.timeline.revision, 1);
    assert_eq!(s.timeline.source_health, SourceHealth::Healthy);
    let t = read(&s.bytes);
    assert_eq!(t.revision, 1);
    assert_eq!(t.session, s.timeline.session);
    assert_eq!(t.anchor.time_ns, 10 * SECOND);
    assert_eq!(t.anchor.position, Position::from_frames(100));
    assert_eq!(s.last_publish, 10 * SECOND);
    assert!(!s.dirty && !s.pending);
}

#[test]
fn leader_publishes_on_heartbeat_only_when_due() {
    let mut s = leader(SourceKind::Generated);
    assert!(!s.pass(10 * SECOND + SECOND - 1));
    assert_eq!(s.timeline.revision, 1);
    assert!(s.pass(11 * SECOND));
    assert_eq!(s.timeline.revision, 2);
    assert_eq!(s.last_publish, 11 * SECOND);
    assert_eq!(read(&s.bytes).revision, 2);
    assert!(!s.pass(11 * SECOND + 1));
}

#[test]
fn accepted_change_is_published_on_next_pass() {
    let mut s = leader(SourceKind::Generated);
    s.change(Change::Seek(Position::from_frames(500)), None, 10 * SECOND + 1).unwrap();
    assert!(s.pending);
    assert!(s.pass(10 * SECOND + 2));
    assert!(!s.pending);
    let t = read(&s.bytes);
    assert_eq!(t.anchor.position, Position::from_frames(500));
    assert_eq!(t.discontinuity, 1);
    assert_eq!(t.revision, 2);
}

#[test]
fn refused_change_leaves_nothing_pending() {
    let mut s = leader(SourceKind::Generated);
    let r = s.change(Change::Rate(Rate::normal()), Some(u64::MAX), 10 * SECOND);
    assert_eq!(r, Err(Error::Invalid("scheduled timestamp")));
    assert!(!s.pending);
    assert!(!s.pass(10 * SECOND + 1));
}

#[test]
fn scheduled_change_applies_and_publishes_when_due() {
    let mut s = leader(SourceKind::Generated);
    s.change(Change::Seek(Position::from_frames(7)), Some(12 * SECOND), 10 * SECOND).unwrap();
    assert!(s.pass(10 * SECOND + 1));
    assert_eq!(s.timeline.scheduled_len, 1);
    assert_eq!(s.deadline(10 * SECOND + 1, None, None), 11 * SECOND + 1);
    assert!(s.pass(11 * SECOND + 1));
    assert_eq!(s.deadline(11 * SECOND + 1, None, None), 12 * SECOND);
    assert!(s.pass(12 * SECOND));
    assert_eq!(s.timeline.scheduled_len, 0);
    assert_eq!(s.timeline.anchor.position, Position::from_frames(7));
    assert_eq!(s.timeline.discontinuity, 1);
    assert_eq!(read(&s.bytes).anchor.time_ns, 12 * SECOND);
}

#[test]
fn leader_deadline_takes_the_earliest_wake() {
    let s = leader(SourceKind::Generated);
    assert_eq!(s.deadline(10 * SECOND, None, None), 11 * SECOND);
    assert_eq!(s.deadline(10 * SECOND, Some(10 * SECOND + 5), None), 10 * SECOND + 5);
    assert_eq!(s.deadline(10 * SECOND, Some(10 * SECOND + 5), Some(10 * SECOND + 3)), 10 * SECOND + 3);
}

#[test]
fn generated_leader_refuses_samples() {
    let s = leader(SourceKind::Generated);
    assert_eq!(s.admit_sample(10 * SECOND, 10 * SECOND), Err(Error::Invalid("source is not tracked")));
}

#[test]
fn external_source_health_follows_samples() {
    let mut s = leader(SourceKind::External);
    assert_eq!(s.timeline.source_health, SourceHealth::Degraded);
    assert_eq!(s.admit_sample(10 * SECOND + 5, 10 * SECOND + 1), Err(Error::Invalid(
        "source timestamps must increase and not be in the future"
    )));
    s.admit_sample(10 * SECOND, 10 * SECOND + 1).unwrap();
    s.take_sample(10 * SECOND, Position::from_frames(200), Rate::normal(), true, 10 * SECOND + 1);
    assert_eq!(s.timeline.source_health, SourceHealth::Healthy);
    assert!(s.dirty && s.pending);
    assert_eq!(s.last_sample, Some(10 * SECOND));
    assert_eq!(s.source_deadline, Some(10 * SECOND + 500_000_001));
    assert!(s.pass(10 * SECOND + 2));
    assert_eq!(s.timeline.discontinuity, 1);
    assert_eq!(read(&s.bytes).source_health, SourceHealth::Healthy);
    // the same sample time again is refused
    assert!(s.admit_sample(10 * SECOND, 10 * SECOND + 3).is_err());
    // stale after the source timeout
    assert!(s.pass(10 * SECOND + 500_000_001));
    assert_eq!(s.timeline.source_health, SourceHealth::Degraded);
    assert_eq!(s.source_deadline, None);
    assert_eq!(read(&s.bytes).source_health, SourceHealth::Degraded);
}

#[test]
fn moved_timeline_publishes_within_tracked_interval() {
    let mut s = leader(SourceKind::External);
    s.take_sample(10 * SECOND, Position::from_frames(200), Rate::normal(), true, 10 * SECOND);
    assert!(s.pass(10 * SECOND));
    s.take_sample(10 * SECOND + 40_000_000, Position::from_frames(201), Rate::normal(), false, 10 * SECOND + 40_000_000);
    assert!(!s.pending && s.dirty);
    assert!(!s.pass(10 * SECOND + 50_000_000));
    assert!(s.pass(10 * SECOND + 100_000_000));
    assert!(!s.dirty);
}

#[test]
fn follower_link_probes_when_connected_and_due() {
    let timing = Timing::default();
    let mut l = FollowerLink::new(timing, 1_000);
    assert!(l.retry_due(1_000));
    assert_eq!(l.probe(1_000), Ok(None));
    l.connecting(1_000);
    assert!(l.connected(2_000));
    assert!(!l.connected(2_500));
    let request = l.probe(2_000).unwrap().unwrap();
    let p = decode_probe(&request).unwrap();
    assert_eq!((p.sequence, p.t1), (1, 2_000));
    assert_eq!(l.next_probe, 2_000);
    l.probe_published(2_010, SyncState::Acquiring);
    assert_eq!(l.next_probe, 2_010 + 50_000_000);
    assert_eq!(l.probe(2_011), Ok(None));
    let again = l.probe(2_010 + 50_000_000).unwrap().unwrap();
    assert_eq!(decode_probe(&again).unwrap().sequence, 2);
    l.probe_published(2_010 + 50_000_000, SyncState::Synchronized);
    assert_eq!(l.next_probe, 2_010 + 50_000_000 + 250_000_000);
}

#[test]
fn follower_link_backs_off_and_reconnects() {
    let timing = Timing::default();
    let mut l = FollowerLink::new(timing, 0);
    l.connecting(0);
    l.connected(10);
    l.disconnected(1_000);
    assert!(!l.connected);
    assert_eq!(l.backoff.retry_at_ns, 1_000 + 100_000_000);
    assert_eq!(l.backoff.delay_ns, 200_000_000);
    assert!(!l.retry_due(1_000));
    l.reconnect(2_000);
    assert!(l.retry_due(2_000));
    assert_eq!(l.backoff.delay_ns, 400_000_000);
    assert_eq!(l.deadline(None, None), 2_000);
}

#[test]
fn backoff_stays_within_retry_max() {
    let timing = Timing::default();
    let mut b = Backoff::new(&timing, 0);
    for i in 0..20 {
        b.disconnected(&timing, 0, i);
        assert!(b.delay_ns >= timing.retry_min && b.delay_ns <= timing.retry_max);
        assert!(b.retry_at_ns <= i + timing.retry_max);
    }
}

#[test]
fn follower_link_bounds_snapshot_frames() {
    let mut l = FollowerLink::new(Timing::default(), 0);
    assert_eq!(l.frame_started(513, 5), Err(Error::Size));
    assert_eq!(l.frame_deadline, None);
    assert_eq!(l.frame_started(512, 5), Ok(()));
    assert_eq!(l.frame_deadline, Some(5 + 3 * SECOND));
    assert!(!l.frame_expired(3 * SECOND + 4));
    assert!(l.frame_expired(3 * SECOND + 5));
    l.frame_finished();
    assert!(!l.frame_expired(u64::MAX));
}
