use ethersync_protocol::runtime::{Runtime, Timers};

const SECOND: u64 = 1_000_000_000;

#[test]
fn reschedule_cancel_expire_and_drop() {
    let mut timers = Timers::new();
    let timer = timers.timer();
    let mut wakes = 0;
    let now = 5 * SECOND;
    let late = now + 60 * SECOND;
    let early = now + 30 * SECOND;
    wakes += timers.set(timer, Some(late)) as u32;
    assert!(!timers.poll(timer, now));
    assert_eq!(timers.advance(now), (Some(late), vec![]));
    wakes += timers.set(timer, Some(early)) as u32;
    assert_eq!(wakes, 1);
    assert_eq!(timers.advance(now), (Some(early), vec![]));
    assert!(!timers.poll(timer, now));
    wakes += timers.set(timer, None) as u32;
    assert_eq!(wakes, 2);
    assert_eq!(timers.advance(now), (None, vec![]));
    assert!(!timers.poll(timer, now));
    wakes += timers.set(timer, Some(now)) as u32;
    assert!(timers.poll(timer, now));
    wakes += timers.set(timer, Some(early)) as u32;
    assert!(!timers.poll(timer, now));
    let before = wakes;
    let (next, woken) = timers.advance(early);
    assert_eq!(next, None);
    wakes += woken.len() as u32;
    assert_eq!(wakes, before + 1);
    let (_, woken) = timers.advance(early);
    wakes += woken.len() as u32;
    assert_eq!(wakes, before + 1);
    timers.release(timer);
    timers.advance(now);
    assert!(timers.is_empty());
}

#[test]
fn unchanged_deadline_wakes_nobody() {
    let mut timers = Timers::new();
    let t = timers.timer();
    assert!(!timers.set(t, Some(10)));
    assert!(!timers.poll(t, 5));
    assert!(!timers.set(t, Some(10)));
    assert!(timers.set(t, Some(11)));
}

#[test]
fn released_slots_are_reused_and_skipped_by_passes() {
    let mut timers = Timers::new();
    let a = timers.timer();
    let b = timers.timer();
    let c = timers.timer();
    assert_eq!((a.id, b.id, c.id), (0, 1, 2));
    timers.set(a, Some(100));
    timers.set(b, Some(50));
    timers.set(c, Some(70));
    assert!(!timers.poll(a, 0));
    assert!(!timers.poll(c, 0));
    assert_eq!(timers.advance(60), (Some(70), vec![]));
    assert_eq!(timers.advance(80), (Some(100), vec![2]));
    timers.release(b);
    assert!(!timers.is_empty());
    let d = timers.timer();
    assert_eq!(d.id, 1);
    assert_eq!(timers.advance(80), (Some(100), vec![]));
    assert_eq!(timers.advance(100), (None, vec![0]));
}

#[test]
fn runtime_polls_spawned_tasks_in_order() {
    let mut runtime: Runtime<u32> = Runtime::new();
    assert!(!runtime.needs_pass());
    runtime.spawn(1);
    runtime.spawn(2);
    assert!(runtime.needs_pass());
    let tasks = runtime.step();
    assert_eq!(tasks, vec![1, 2]);
    assert!(!runtime.needs_pass());
    runtime.spawn(3);
    let kept: Vec<u32> = tasks.into_iter().filter(|t| *t != 1).collect();
    runtime.resume(kept);
    assert!(runtime.needs_pass());
    assert_eq!(runtime.machines, vec![2, 3]);
    runtime.clear();
    assert!(runtime.machines.is_empty());
}
