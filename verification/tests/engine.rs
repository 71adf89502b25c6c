use ethersync_protocol::config::{Timing, WorkerTiming};
use ethersync_protocol::engine::{
    answer_probe, check_frame_size, follower_deadline, leader_deadline, leader_timeline,
    poll_timeout, probe_interval, publish_due, republish, source_deadline, Backoff,
};
use ethersync_protocol::probes::Probes;
use ethersync_protocol::timeline::{change_timeline, Change, SourceHealth, SourceKind, SyncState, Timeline};
use ethersync_protocol::timers::{advance, is_expired, reschedule_wakes};
use ethersync_protocol::{decode_probe, decode_snapshot, Error, FrameFormat, Position, Rate};

#[test]
fn leader_answer_is_accepted_by_the_follower() {
    let mut probes = Probes::default();
    let request = probes.request(1_000).unwrap();
    let answer = answer_probe(&request, 5_000, 5_100).unwrap();
    let p = decode_probe(&answer).unwrap();
    assert_eq!((p.sequence, p.t1, p.t2, p.t3), (1, 1_000, 5_000, 5_100));
    let e = probes.reply(&answer, 2_000).unwrap().unwrap();
    assert_eq!((e.t1, e.t2, e.t3, e.t4), (1_000, 5_000, 5_100, 2_000));
}

#[test]
fn leader_refuses_requests_that_already_carry_reply_stamps() {
    let mut probes = Probes::default();
    let request = probes.request(1_000).unwrap();
    let answer = answer_probe(&request, 5_000, 5_100).unwrap();
    assert_eq!(
        answer_probe(&answer, 6_000, 6_100),
        Err(Error::Invalid("probe request includes reply timestamps"))
    );
    assert_eq!(answer_probe(&[0x80], 1, 1), Err(Error::Decode));
}

#[test]
fn leader_timeline_is_published_and_read_back() {
    let format = FrameFormat::new(25, 1, false).unwrap();
    let mut t = leader_timeline([7; 16], format, 3_000, Position::from_frames(10), Rate::normal(), SourceKind::External);
    assert_eq!(t.revision, 1);
    assert_eq!(t.source_health, SourceHealth::Degraded);
    let bytes = republish(&mut t).unwrap();
    assert_eq!(t.revision, 2);
    let back = Timeline::from_wire(&decode_snapshot(&bytes).unwrap()).unwrap();
    assert_eq!(back.revision, 2);
    assert_eq!(back.session, [7; 16]);
    assert_eq!(back.anchor.position, Position::from_frames(10));
    assert_eq!(back.source_kind, SourceKind::External);
    let g = leader_timeline([1; 16], format, 0, Position::zero(), Rate::paused(), SourceKind::Generated);
    assert_eq!(g.source_health, SourceHealth::Healthy);
}

#[test]
fn due_changes_are_applied_once_in_order() {
    let mut t = leader_timeline([2; 16], FrameFormat::default(), 0, Position::zero(), Rate::normal(), SourceKind::Generated);
    change_timeline(&mut t, Change::Seek(Position::from_frames(900)), Some(3_000_000_000), 0).unwrap();
    change_timeline(&mut t, Change::Rate(Rate::paused()), Some(4_000_000_000), 0).unwrap();
    assert!(!t.apply_due(2_000_000_000));
    assert_eq!(t.scheduled_len, 2);
    assert!(t.apply_due(3_500_000_000));
    assert_eq!(t.scheduled_len, 1);
    assert_eq!(t.discontinuity, 1);
    assert_eq!(t.anchor.position, Position::from_frames(900));
    assert!(t.apply_due(5_000_000_000));
    assert_eq!((t.scheduled_len, t.discontinuity), (0, 2));
    assert!(!t.apply_due(6_000_000_000));
}

#[test]
fn publication_follows_heartbeat_and_dirty_interval() {
    let timing = Timing::default();
    assert!(!publish_due(1_000, false, 1_000 + 999_999_999, &timing));
    assert!(publish_due(1_000, false, 1_000 + 1_000_000_000, &timing));
    assert!(publish_due(1_000, true, 1_000 + 100_000_000, &timing));
    assert!(!publish_due(1_000, true, 1_000 + 99_999_999, &timing));
    assert!(!publish_due(5_000, true, 1_000, &timing));
}

#[test]
fn deadlines_take_the_earliest_pending_event() {
    let timing = Timing::default();
    let mut t = Timeline::default();
    assert_eq!(leader_deadline(&t, 0, false, &timing, 10, None), 1_000_000_000);
    assert_eq!(leader_deadline(&t, 0, true, &timing, 10, None), 100_000_000);
    assert_eq!(leader_deadline(&t, 0, true, &timing, 10, Some(50)), 50);
    change_timeline(&mut t, Change::Rate(Rate::normal()), Some(20_000_000), 10).unwrap();
    assert_eq!(leader_deadline(&t, 0, false, &timing, 10, None), 20_000_000);
    assert_eq!(leader_deadline(&t, 0, false, &timing, 30_000_000, None), 30_000_000);
    assert_eq!(source_deadline(100, 500, 0), 601);
    assert_eq!(source_deadline(100, 500, 700), 700);
    assert_eq!(source_deadline(u64::MAX, 5, 0), u64::MAX);
    assert_eq!(follower_deadline(None, None, false, 5, 9, None), 9);
    assert_eq!(follower_deadline(Some(3), Some(7), false, 5, 9, None), 3);
    assert_eq!(follower_deadline(None, Some(7), true, 5, 9, Some(4)), 4);
    assert_eq!(follower_deadline(None, Some(7), false, 5, 9, None), 7);
}

#[test]
fn probing_is_fast_until_synchronized() {
    let timing = Timing::default();
    assert_eq!(probe_interval(SyncState::Synchronized, &timing), 250_000_000);
    assert_eq!(probe_interval(SyncState::Acquiring, &timing), 50_000_000);
    assert_eq!(check_frame_size(513), Err(Error::Size));
    assert_eq!(check_frame_size(512), Ok(()));
}

#[test]
fn backoff_doubles_up_to_the_maximum_and_resets_after_a_stable_connection() {
    let timing = Timing::default();
    let mut b = Backoff::new(&timing, 0);
    assert_eq!((b.delay_ns, b.retry_at_ns), (100_000_000, 0));
    b.disconnected(&timing, 0, 1_000);
    assert_eq!((b.retry_at_ns, b.delay_ns), (100_001_000, 200_000_000));
    for _ in 0..10 {
        b.disconnected(&timing, 0, 1_000);
    }
    assert_eq!(b.delay_ns, 5_000_000_000);
    b.disconnected(&timing, 0, 3_000_000_000);
    assert_eq!((b.retry_at_ns, b.delay_ns), (3_100_000_000, 200_000_000));
    b.retry_now(42);
    assert_eq!(b.retry_at_ns, 42);
}

#[test]
fn timers_wake_expired_and_report_the_next_deadline() {
    let (next, due) = advance(&[Some(60), None, Some(30), Some(10)], 20);
    assert_eq!(next, Some(30));
    assert_eq!(due, vec![false, false, false, true]);
    let (next, due) = advance(&[None, Some(5)], 20);
    assert_eq!(next, None);
    assert_eq!(due, vec![false, true]);
    assert!(is_expired(Some(20), 20));
    assert!(!is_expired(None, 20));
    assert!(reschedule_wakes(Some(60), Some(30)));
    assert!(reschedule_wakes(Some(30), None));
    assert!(!reschedule_wakes(Some(30), Some(30)));
}

#[test]
fn worker_waits_until_the_earliest_deadline_and_counts_passes() {
    assert_eq!(poll_timeout(true, Some(5), 0), Some(0));
    assert_eq!(poll_timeout(false, Some(50), 20), Some(30));
    assert_eq!(poll_timeout(false, Some(10), 20), Some(0));
    assert_eq!(poll_timeout(false, None, 20), None);
    let mut w = WorkerTiming::default();
    w.record(30, 0);
    w.record(10, 7);
    assert_eq!((w.passes, w.max_pass_ns, w.max_deadline_lateness_ns), (2, 30, 7));
    w.passes = u64::MAX;
    w.record(0, 0);
    assert_eq!(w.passes, 0);
}
