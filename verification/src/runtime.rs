//! The owner-driven runtime of the transport: a registry of timers and the list of tasks
//! (state machines) that a pass polls. Registration does no work; the owner's pass polls
//! the tasks and wakes what the registry names. Times are readings of the monotonic clock
//! in nanoseconds. The tasks themselves and the wakers of waiting tasks stay with the
//! owner, which refers to them by the indices used here.
use vstd::prelude::*;

use crate::timers::{expired, is_expired, next_deadline};

verus! {

/// A timer: its deadline, if set, and whether a task waits for it.
#[derive(Clone, Copy, Debug)]
pub struct TimerState {
    pub at: Option<u64>,
    pub waiting: bool,
}

/// A handle on a timer of the registry.
#[derive(Clone, Copy, Debug)]
pub struct Timer {
    pub id: usize,
}

/// The registry of timers. The slot of a dropped timer stays empty until a new timer takes
/// it.
pub struct Timers {
    slots: Vec<Option<TimerState>>,
}

impl View for Timers {
    type V = Seq<Option<TimerState>>;

    closed spec fn view(&self) -> Seq<Option<TimerState>> {
        self.slots@
    }
}

/// The deadline of a slot; none for an empty one.
pub open spec fn deadline_of(s: Option<TimerState>) -> Option<u64> {
    match s {
        Some(t) => t.at,
        None => None,
    }
}

/// The deadlines of all slots.
pub open spec fn deadlines(slots: Seq<Option<TimerState>>) -> Seq<Option<u64>> {
    slots.map_values(|s: Option<TimerState>| deadline_of(s))
}

/// The first empty slot from `i` on, or the number of slots.
pub open spec fn free_from(slots: Seq<Option<TimerState>>, i: nat) -> nat
    decreases slots.len() - i,
{
    if i < slots.len() && slots[i as int] is Some {
        free_from(slots, i + 1)
    } else {
        i
    }
}

/// Whether a pass at `now` wakes the task waiting on this slot: the timer is live, has
/// expired, and a task waits.
pub open spec fn wakes(s: Option<TimerState>, now: u64) -> bool {
    s matches Some(t) && expired(t.at, now) && t.waiting
}

/// The slots among the first `n` whose waiting task a pass at `now` wakes, in order.
pub open spec fn woken(slots: Seq<Option<TimerState>>, now: u64, n: nat) -> Seq<usize>
    decreases n,
{
    if n == 0 {
        Seq::empty()
    } else {
        woken(slots, now, (n - 1) as nat) + (if wakes(slots[n - 1], now) {
            seq![(n - 1) as usize]
        } else {
            Seq::empty()
        })
    }
}

/// A slot after a pass at `now`: an expired timer no longer has a waiting task.
pub open spec fn after_pass(s: Option<TimerState>, now: u64) -> Option<TimerState> {
    match s {
        Some(t) => if expired(t.at, now) {
            Some(TimerState { at: t.at, waiting: false })
        } else {
            s
        },
        None => None,
    }
}

proof fn lemma_free_from(slots: Seq<Option<TimerState>>, i: nat)
    requires
        i <= slots.len(),
    ensures
        i <= free_from(slots, i) <= slots.len(),
        free_from(slots, i) < slots.len() ==> slots[free_from(slots, i) as int] is None,
        forall|j: int| i <= j < free_from(slots, i) ==> slots[j] is Some,
    decreases slots.len() - i,
{
    if i < slots.len() && slots[i as int] is Some {
        lemma_free_from(slots, i + 1);
    }
}

/// A pass wakes each waiting task once: a second pass at the same time, with no poll in
/// between, wakes nothing.
pub proof fn lemma_pass_wakes_once(slots: Seq<Option<TimerState>>, now: u64)
    ensures
        woken(
            slots.map_values(|s: Option<TimerState>| after_pass(s, now)),
            now,
            slots.len(),
        ) == Seq::<usize>::empty(),
{
    let after = slots.map_values(|s: Option<TimerState>| after_pass(s, now));
    lemma_none_woken(after, now, slots.len());
}

proof fn lemma_none_woken(after: Seq<Option<TimerState>>, now: u64, n: nat)
    requires
        n <= after.len(),
        forall|i: int| 0 <= i < after.len() ==> !wakes(#[trigger] after[i], now),
    ensures
        woken(after, now, n) == Seq::<usize>::empty(),
    decreases n,
{
    if n > 0 {
        lemma_none_woken(after, now, (n - 1) as nat);
        assert(!wakes(after[n - 1], now));
        assert(woken(after, now, n) =~= Seq::<usize>::empty());
    }
}

impl Timers {
    /// An empty registry.
    pub fn new() -> (r: Self)
        ensures
            r@ == Seq::<Option<TimerState>>::empty(),
    {
        Timers { slots: Vec::new() }
    }

    /// Registers a timer, unset and with no waiting task, in the first empty slot.
    pub fn timer(&mut self) -> (t: Timer)
        ensures
            t.id == free_from(old(self)@, 0),
            t.id < old(self)@.len() ==> final(self)@ == old(self)@.update(
                t.id as int,
                Some(TimerState { at: None, waiting: false }),
            ),
            t.id == old(self)@.len() ==> final(self)@ == old(self)@.push(
                Some(TimerState { at: None, waiting: false }),
            ),
    {
        proof {
            lemma_free_from(self@, 0);
        }
        let fresh = Some(TimerState { at: None, waiting: false });
        let n = self.slots.len();
        let mut i: usize = 0;
        while i < n && self.slots[i].is_some()
            invariant
                n == self.slots@.len(),
                i <= n,
                self.slots@ == old(self)@,
                free_from(old(self)@, 0) == free_from(old(self)@, i as nat),
            decreases n - i,
        {
            i = i + 1;
        }
        if i < n {
            self.slots.set(i, fresh);
        } else {
            self.slots.push(fresh);
        }
        Timer { id: i }
    }

    /// Whether `t` names a live timer.
    pub open spec fn live(&self, t: Timer) -> bool {
        t.id < self@.len() && self@[t.id as int] is Some
    }

    /// Sets or clears the deadline. Returns whether the waiting task must be woken: when
    /// the deadline changed and a task waits; it then no longer waits. An unchanged
    /// deadline changes nothing.
    pub fn set(&mut self, t: Timer, at: Option<u64>) -> (wake: bool)
        requires
            old(self).live(t),
        ensures
            ({
                let s = old(self)@[t.id as int]->0;
                if s.at == at {
                    !wake && final(self)@ == old(self)@
                } else {
                    wake == s.waiting && final(self)@ == old(self)@.update(
                        t.id as int,
                        Some(TimerState { at, waiting: false }),
                    )
                }
            }),
    {
        let s = self.slots[t.id].unwrap();
        let same = match (s.at, at) {
            (Some(a), Some(b)) => a == b,
            (None, None) => true,
            _ => false,
        };
        if same {
            return false;
        }
        self.slots.set(t.id, Some(TimerState { at, waiting: false }));
        s.waiting
    }

    /// Polls the timer at `now`: ready once its deadline has passed; otherwise the polling
    /// task now waits for it.
    pub fn poll(&mut self, t: Timer, now: u64) -> (ready: bool)
        requires
            old(self).live(t),
        ensures
            ({
                let s = old(self)@[t.id as int]->0;
                &&& ready == expired(s.at, now)
                &&& final(self)@ == if ready {
                    old(self)@
                } else {
                    old(self)@.update(t.id as int, Some(TimerState { at: s.at, waiting: true }))
                }
            }),
    {
        let s = self.slots[t.id].unwrap();
        if is_expired(s.at, now) {
            return true;
        }
        self.slots.set(t.id, Some(TimerState { at: s.at, waiting: true }));
        false
    }

    /// Drops the timer; its slot becomes empty.
    pub fn release(&mut self, t: Timer)
        requires
            t.id < old(self)@.len(),
        ensures
            final(self)@ == old(self)@.update(t.id as int, None),
    {
        self.slots.set(t.id, None);
    }

    /// Whether no timer is live.
    pub fn is_empty(&self) -> (r: bool)
        ensures
            r == forall|i: int| 0 <= i < self@.len() ==> self@[i] is None,
    {
        let mut i: usize = 0;
        while i < self.slots.len()
            invariant
                i <= self@.len(),
                forall|j: int| 0 <= j < i ==> self@[j] is None,
            decreases self@.len() - i,
        {
            if self.slots[i].is_some() {
                return false;
            }
            i = i + 1;
        }
        true
    }

    /// One pass at `now`: the tasks waiting on expired timers are to be woken (returned, in
    /// slot order) and no longer wait, and the earliest deadline still ahead is returned,
    /// when the next pass is due.
    pub fn advance(&mut self, now: u64) -> (r: (Option<u64>, Vec<usize>))
        ensures
            r.0 == next_deadline(deadlines(old(self)@), now),
            r.1@ == woken(old(self)@, now, old(self)@.len()),
            final(self)@.len() == old(self)@.len(),
            forall|i: int| 0 <= i < old(self)@.len() ==> final(self)@[i] == after_pass(
                #[trigger] old(self)@[i],
                now,
            ),
    {
        let ghost s0 = self@;
        let ghost d0 = deadlines(s0);
        let mut next: Option<u64> = None;
        let mut wake: Vec<usize> = Vec::new();
        let mut i: usize = 0;
        while i < self.slots.len()
            invariant
                i <= self@.len(),
                self@.len() == s0.len(),
                d0 == deadlines(s0),
                next == next_deadline(d0.take(i as int), now),
                wake@ == woken(s0, now, i as nat),
                forall|j: int| 0 <= j < i ==> self@[j] == after_pass(#[trigger] s0[j], now),
                forall|j: int| i <= j < s0.len() ==> self@[j] == #[trigger] s0[j],
            decreases self@.len() - i,
        {
            let slot = self.slots[i];
            proof {
                assert(d0.take(i + 1).drop_last() =~= d0.take(i as int));
                assert(d0.take(i + 1).last() == deadline_of(s0[i as int]));
            }
            match slot {
                Some(t) => {
                    if is_expired(t.at, now) {
                        if t.waiting {
                            wake.push(i);
                        }
                        self.slots.set(i, Some(TimerState { at: t.at, waiting: false }));
                    } else {
                        match t.at {
                            Some(a) => {
                                next = match next {
                                    Some(b) => Some(
                                        if a <= b {
                                            a
                                        } else {
                                            b
                                        },
                                    ),
                                    None => Some(a),
                                };
                            },
                            None => {},
                        }
                    }
                },
                None => {},
            }
            proof {
                assert(woken(s0, now, (i + 1) as nat) == woken(s0, now, i as nat) + (if wakes(
                    s0[i as int],
                    now,
                ) {
                    seq![i]
                } else {
                    Seq::empty()
                }));
            }
            i = i + 1;
            assert(wake@ =~= woken(s0, now, i as nat));
        }
        assert(d0.take(i as int) =~= d0);
        (next, wake)
    }
}

/// The runtime: the timer registry, the tasks that wait to be polled, and whether a pass
/// is needed because a task was spawned since the last one.
pub struct Runtime<M> {
    pub timers: Timers,
    /// Whether a task was spawned since the last pass began.
    pub ready: bool,
    /// The tasks waiting to be polled.
    pub machines: Vec<M>,
}

impl<M> Runtime<M> {
    /// The tasks waiting to be polled.
    pub open spec fn tasks(&self) -> Seq<M> {
        self.machines@
    }

    /// Whether a task was spawned since the last pass began.
    pub open spec fn spawned(&self) -> bool {
        self.ready
    }

    pub fn new() -> (r: Self)
        ensures
            r.timers@ == Seq::<Option<TimerState>>::empty(),
            r.tasks() == Seq::<M>::empty(),
            !r.spawned(),
    {
        Runtime { timers: Timers::new(), ready: false, machines: Vec::new() }
    }

    /// Registers a task; registration does not run it, but a pass is now needed.
    pub fn spawn(&mut self, machine: M)
        ensures
            final(self).tasks() == old(self).tasks().push(machine),
            final(self).spawned(),
            final(self).timers == old(self).timers,
    {
        self.machines.push(machine);
        self.ready = true;
    }

    /// Whether a pass is needed because a task was spawned.
    pub fn needs_pass(&self) -> (r: bool)
        ensures
            r == self.spawned(),
    {
        self.ready
    }

    /// Begins a pass: hands over the tasks to poll; tasks spawned from now on wait for
    /// the next pass.
    pub fn step(&mut self) -> (machines: Vec<M>)
        ensures
            machines@ == old(self).tasks(),
            final(self).tasks() == Seq::<M>::empty(),
            !final(self).spawned(),
            final(self).timers == old(self).timers,
    {
        self.ready = false;
        let mut machines = Vec::new();
        std::mem::swap(&mut machines, &mut self.machines);
        machines
    }

    /// Ends a pass: the tasks still pending after it (`kept`) come before those spawned
    /// while it ran.
    pub fn resume(&mut self, kept: Vec<M>)
        ensures
            final(self).tasks() == kept@ + old(self).tasks(),
            final(self).spawned() == old(self).spawned(),
            final(self).timers == old(self).timers,
    {
        let mut kept = kept;
        kept.append(&mut self.machines);
        self.machines = kept;
    }

    /// Drops every task.
    pub fn clear(&mut self)
        ensures
            final(self).tasks() == Seq::<M>::empty(),
            final(self).spawned() == old(self).spawned(),
            final(self).timers == old(self).timers,
    {
        self.machines.clear();
    }
}

} // verus!
