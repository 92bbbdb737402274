//! Timers of the sessions.
use mio::timer::{Builder, Timeout, Timer};
use std::time::Duration;
use vstd::prelude::*;

use crate::assoc::{AssocMap, Ident};
use crate::hub::session_spec::NANOS_PER_SEC;
use crate::hub::{SessionTimerAction, SessionTimerPayload};

verus! {

/// Milliseconds of one tick of the timer.
pub const TICK_MS: u64 = 50;

/// Slots of the timer's wheel.
pub const NUM_SLOTS: usize = 512;

/// Timers that there is always room for.
pub const MIN_CAPACITY: usize = 4096;

/// Messages that are taken in before timers are looked at again.
pub const INBOX_COUNT: usize = 60;

/// Timers that may run out before messages are taken in again.
pub const TIMER_COUNT: usize = 40;

/// Seconds that pass after a change of capacity before it shrinks.
pub const MAX_SHRINK_INTERVAL: u64 = 900;

/// Milliseconds to rest where there was nothing to do.
pub const REST_MS: u64 = 100;

/// Timers that are set anew before the clock is read again.
pub const CLOCK_INTERVAL: usize = 512;

/// Payloads by place and tick.
pub type TimerEntries = Map<(usize, u64), SessionTimerPayload>;

/// A timer of `mio`.
#[verifier::external_type_specification]
#[verifier::external_body]
#[verifier::reject_recursive_types(T)]
pub struct ExTimer<T>(mio::timer::Timer<T>);

/// A handle to a timeout of `mio`.
#[verifier::external_type_specification]
#[verifier::external_body]
pub struct ExTimeout(mio::timer::Timeout);

/// The place in a timer, and the tick, that a handle leads to.
pub uninterp spec fn timeout_key(timeout: Timeout) -> (usize, u64);

/// What a timer holds, by place and tick.
pub uninterp spec fn timer_entries(timer: Timer<SessionTimerPayload>) -> Map<
    (usize, u64),
    SessionTimerPayload,
>;

/// The tick that a timer has come to.
pub uninterp spec fn timer_tick(timer: Timer<SessionTimerPayload>) -> u64;

/// Milliseconds of one tick of a timer.
pub uninterp spec fn timer_tick_ms(timer: Timer<SessionTimerPayload>) -> u64;

/// The ticks in a number of nanoseconds: whole milliseconds, rounded up, to the nearest tick.
pub open spec fn ticks(nanos: u64, tick_ms: u64) -> int {
    ((nanos + 999_999) / 1_000_000 + tick_ms / 2) / (tick_ms as int)
}

/// `Builder::build` of `mio`: an empty timer. It panics where the room that is asked for cannot
/// exist.
#[verifier::external_body]
fn timer_build(num_slots: usize, tick_ms: u64, capacity: usize) -> (r: Timer<SessionTimerPayload>)
    requires
        0 < num_slots <= 0x1_0000,
        tick_ms > 0,
        capacity * 256 <= isize::MAX,
    ensures
        timer_entries(r) == TimerEntries::empty(),
        timer_tick(r) == 0,
        timer_tick_ms(r) == tick_ms,
{
    Builder::default()
        .num_slots(num_slots)
        .tick_duration(Duration::from_millis(tick_ms))
        .capacity(capacity)
        .build()
}

/// `Timer::set_timeout` of `mio`: never fails, and adds the payload in a free place, at a tick that
/// is yet to come and that is not before the delay's ticks. How much later it is depends on how old
/// the timer is, and is left unsaid.
#[verifier::external_body]
fn timer_set_timeout(
    timer: &mut Timer<SessionTimerPayload>,
    delay_nanos: u64,
    payload: SessionTimerPayload,
) -> (r: Option<Timeout>)
    requires
        timer_tick_ms(*old(timer)) > 0,
    ensures
        r is Some,
        !timer_entries(*old(timer)).contains_key(timeout_key(r->0)),
        timer_entries(*final(timer)) == timer_entries(*old(timer)).insert(
            timeout_key(r->0),
            payload,
        ),
        timer_tick(*final(timer)) == timer_tick(*old(timer)),
        timer_tick_ms(*final(timer)) == timer_tick_ms(*old(timer)),
        timeout_key(r->0).1 > timer_tick(*old(timer)),
        timeout_key(r->0).1 >= ticks(delay_nanos, timer_tick_ms(*old(timer))),
{
    timer.set_timeout(Duration::from_nanos(delay_nanos), payload).ok()
}

/// `Timer::cancel_timeout` of `mio`: takes out what the handle leads to, where that is still there.
#[verifier::external_body]
fn timer_cancel_timeout(timer: &mut Timer<SessionTimerPayload>, timeout: &Timeout)
    ensures
        timer_entries(*final(timer)) == timer_entries(*old(timer)).remove(timeout_key(*timeout)),
        timer_tick(*final(timer)) == timer_tick(*old(timer)),
        timer_tick_ms(*final(timer)) == timer_tick_ms(*old(timer)),
{
    timer.cancel_timeout(timeout);
}

/// `Timer::poll` of `mio`: goes on tick by tick and takes out the first payload whose tick has come.
/// What is left is at the tick that it stops at or later, and where it takes nothing out it has gone
/// on by a tick at least. How far it goes depends on the time, and which of several payloads at one
/// tick comes first on how the timer files them: both are left unsaid.
#[verifier::external_body]
fn timer_poll(timer: &mut Timer<SessionTimerPayload>) -> (r: Option<SessionTimerPayload>)
    ensures
        timer_tick(*final(timer)) >= timer_tick(*old(timer)),
        timer_tick_ms(*final(timer)) == timer_tick_ms(*old(timer)),
        match r {
            Some(payload) => exists|key: (usize, u64)|
                {
                    &&& #[trigger] timer_entries(*old(timer)).contains_key(key)
                    &&& timer_entries(*old(timer))[key] == payload
                    &&& key.1 <= timer_tick(*final(timer))
                    &&& timer_entries(*final(timer)) == timer_entries(*old(timer)).remove(key)
                },
            None => {
                &&& timer_entries(*final(timer)) == timer_entries(*old(timer))
                &&& timer_tick(*old(timer)) < u64::MAX ==> timer_tick(*final(timer)) > timer_tick(
                    *old(timer),
                )
            },
        },
        forall|key: (usize, u64)| #[trigger]
            timer_entries(*final(timer)).contains_key(key) ==> key.1 >= timer_tick(*final(timer)),
{
    timer.poll()
}

impl View for SessionTimerPayload {
    type V = SessionTimerPayload;

    open spec fn view(&self) -> SessionTimerPayload {
        *self
    }
}

impl Ident for SessionTimerPayload {
    fn same(&self, other: &Self) -> (r: bool) {
        *self == *other
    }

    fn copy(&self) -> (r: Self) {
        *self
    }
}

/// The timers of all sessions. Instants are nanoseconds of the hub's clock.
pub struct SessionTimers {
    timer: Timer<SessionTimerPayload>,
    timeouts: AssocMap<SessionTimerPayload, (u64, Timeout)>,
    capacity: usize,
    last_resize: u64,
}

impl SessionTimers {
    /// The timers that are running, with the instants at which they run out.
    pub closed spec fn running(&self) -> Map<SessionTimerPayload, u64> {
        Map::new(
            |p: SessionTimerPayload|
                self.timeouts@.contains_key(p) && timer_entries(self.timer).contains_key(
                    timeout_key(self.timeouts@[p].1),
                ),
            |p: SessionTimerPayload| self.timeouts@[p].0,
        )
    }

    /// The timers that are on record, running or run out, with their instants.
    pub closed spec fn records(&self) -> Map<SessionTimerPayload, u64> {
        self.timeouts@.map_values(|e: (u64, Timeout)| e.0)
    }

    /// How many timers are on record.
    pub closed spec fn recorded(&self) -> nat {
        self.timeouts.keys().len()
    }

    /// The tick that the timers have come to.
    pub closed spec fn tick(&self) -> u64 {
        timer_tick(self.timer)
    }

    /// The tick at which a timer that is on record runs out.
    pub closed spec fn due(&self, payload: SessionTimerPayload) -> u64 {
        timeout_key(self.timeouts@[payload].1).1
    }

    pub closed spec fn room(&self) -> usize {
        self.capacity
    }

    pub closed spec fn resized_at(&self) -> u64 {
        self.last_resize
    }

    /// Each entry of the timer is on record, and each record leads to its own entry or to a tick
    /// that has passed.
    pub closed spec fn wf(&self) -> bool {
        &&& self.capacity * 256 <= isize::MAX
        &&& timer_tick_ms(self.timer) == TICK_MS
        &&& forall|p: SessionTimerPayload| #[trigger]
            self.timeouts@.contains_key(p) ==> {
                let key = timeout_key(self.timeouts@[p].1);
                if timer_entries(self.timer).contains_key(key) {
                    timer_entries(self.timer)[key] == p
                } else {
                    key.1 <= timer_tick(self.timer)
                }
            }
        &&& forall|key: (usize, u64)| #[trigger]
            timer_entries(self.timer).contains_key(key) ==> {
                let p = timer_entries(self.timer)[key];
                self.timeouts@.contains_key(p) && timeout_key(self.timeouts@[p].1) == key
            }
    }

    pub fn new(now: u64) -> (r: SessionTimers)
        ensures
            r.wf(),
            r.running() == Map::<SessionTimerPayload, u64>::empty(),
            r.records() == Map::<SessionTimerPayload, u64>::empty(),
            r.recorded() == 0,
            r.room() == MIN_CAPACITY,
            r.resized_at() == now,
    {
        let r = SessionTimers {
            timer: timer_build(NUM_SLOTS, TICK_MS, MIN_CAPACITY),
            timeouts: AssocMap::new(),
            capacity: MIN_CAPACITY,
            last_resize: now,
        };
        assert(r.running() =~= Map::<SessionTimerPayload, u64>::empty());
        assert(r.records() =~= Map::<SessionTimerPayload, u64>::empty());
        r
    }

    /// Stops a timer.
    fn cancel(&mut self, payload: &SessionTimerPayload)
        requires
            old(self).wf(),
        ensures
            final(self).wf(),
            final(self).running() == old(self).running().remove(*payload),
            final(self).records() == old(self).records().remove(*payload),
            !final(self).timeouts@.contains_key(*payload),
            final(self).recorded() <= old(self).recorded(),
            final(self).room() == old(self).room(),
            final(self).resized_at() == old(self).resized_at(),
    {
        proof {
            self.timeouts.lemma_keys();
        }
        if let Some((_, timeout)) = self.timeouts.remove(payload) {
            timer_cancel_timeout(&mut self.timer, &timeout);
        }
        assert(self.running() =~= old(self).running().remove(*payload));
        assert(self.records() =~= old(self).records().remove(*payload));
    }

    /// Starts a timer that is not on record. One that has already run out is returned instead.
    fn start(&mut self, end: u64, payload: SessionTimerPayload, now: u64) -> (r: Option<
        SessionTimerPayload,
    >)
        requires
            old(self).wf(),
            !old(self).timeouts@.contains_key(payload),
        ensures
            final(self).wf(),
            final(self).room() == old(self).room(),
            final(self).resized_at() == old(self).resized_at(),
            final(self).recorded() <= old(self).recorded() + 1,
            if end > now {
                &&& r is None
                &&& final(self).running() == old(self).running().insert(payload, end)
                &&& final(self).records() == old(self).records().insert(payload, end)
                &&& final(self).due(payload) >= ticks((end - now) as u64, TICK_MS)
            } else {
                &&& r == Some(payload)
                &&& final(self).running() == old(self).running()
                &&& final(self).records() == old(self).records()
            },
    {
        match delay(end, now) {
            Some(nanos) => {
                if let Some(timeout) = timer_set_timeout(&mut self.timer, nanos, payload) {
                    self.timeouts.insert(payload, (end, timeout));
                }
                assert(self.running() =~= old(self).running().insert(payload, end));
                assert(self.records() =~= old(self).records().insert(payload, end));
                None
            },
            None => Some(payload),
        }
    }

    /// A message to the timers. A timer that has already run out when it is set is returned; one
    /// that has not is set for its `delay`, and is due no earlier than after as many ticks as that
    /// takes. How much later depends on how old the underlying timer is.
    pub fn handle(
        &mut self,
        action: SessionTimerAction,
        payload: SessionTimerPayload,
        now: u64,
    ) -> (r: Option<SessionTimerPayload>)
        requires
            old(self).wf(),
        ensures
            final(self).wf(),
            final(self).room() == old(self).room(),
            final(self).resized_at() == old(self).resized_at(),
            final(self).recorded() <= old(self).recorded() + 1,
            match action {
                SessionTimerAction::SetAt(end) => if end > now {
                    &&& r is None
                    &&& final(self).running() == old(self).running().insert(payload, end)
                    &&& final(self).records() == old(self).records().insert(payload, end)
                    &&& final(self).due(payload) >= ticks((end - now) as u64, TICK_MS)
                } else {
                    &&& r == Some(payload)
                    &&& final(self).running() == old(self).running().remove(payload)
                    &&& final(self).records() == old(self).records().remove(payload)
                },
                SessionTimerAction::Cancel => {
                    &&& r is None
                    &&& final(self).running() == old(self).running().remove(payload)
                    &&& final(self).records() == old(self).records().remove(payload)
                },
            },
    {
        self.cancel(&payload);
        match action {
            SessionTimerAction::SetAt(end) => {
                let r = self.start(end, payload, now);
                assert(end > now ==> self.running() =~= old(self).running().insert(payload, end));
                assert(end > now ==> self.records() =~= old(self).records().insert(payload, end));
                r
            },
            SessionTimerAction::Cancel => None,
        }
    }

    /// Goes on to the next tick at which a timer is due, as far as the time allows, and takes that
    /// timer out. No timer that is then still running is due before the tick that has come. Where
    /// none is taken out, a tick at least has passed, so a timer that was already due is not missed.
    pub fn poll(&mut self) -> (r: Option<SessionTimerPayload>)
        requires
            old(self).wf(),
        ensures
            final(self).wf(),
            final(self).room() == old(self).room(),
            final(self).resized_at() == old(self).resized_at(),
            final(self).recorded() == old(self).recorded(),
            final(self).records() == old(self).records(),
            final(self).tick() >= old(self).tick(),
            forall|p: SessionTimerPayload| #[trigger] final(self).due(p) == old(self).due(p),
            forall|p: SessionTimerPayload| #[trigger]
                final(self).running().contains_key(p) ==> final(self).due(p) >= final(self).tick(),
            forall|p: SessionTimerPayload| #[trigger]
                old(self).running().contains_key(p) && old(self).due(p) <= old(self).tick() && old(
                    self,
                ).tick() < u64::MAX ==> r is Some,
            match r {
                Some(payload) => {
                    &&& old(self).running().contains_key(payload)
                    &&& final(self).running() == old(self).running().remove(payload)
                    &&& old(self).due(payload) <= final(self).tick()
                },
                None => {
                    &&& final(self).running() == old(self).running()
                    &&& old(self).tick() < u64::MAX ==> final(self).tick() > old(self).tick()
                },
            },
    {
        let r = timer_poll(&mut self.timer);
        proof {
            match r {
                Some(payload) => {
                    assert(self.running() =~= old(self).running().remove(payload));
                },
                None => {
                    assert(self.running() =~= old(self).running());
                },
            }
        }
        r
    }

    /// `true` iff the room can be looked at: the doubled room could exist, and the clock has not gone
    /// back.
    pub fn can_adjust_room(&self, now: u64) -> (r: bool)
        ensures
            r == (self.recorded() * 512 <= isize::MAX && self.resized_at() <= now),
    {
        self.timeouts.len() <= isize::MAX as usize / 512 && self.last_resize <= now
    }

    /// Takes more room where too many timers are on record, and gives room back where few have been
    /// for long; `true` iff the room changed. The timers are then to be moved.
    pub fn adjust_room(&mut self, now: u64) -> (r: bool)
        requires
            old(self).wf(),
            old(self).recorded() * 512 <= isize::MAX,
            old(self).resized_at() <= now,
        ensures
            final(self).wf(),
            final(self).running() == old(self).running(),
            final(self).records() == old(self).records(),
            final(self).recorded() == old(self).recorded(),
            final(self).resized_at() == old(self).resized_at(),
            final(self).room() == new_room(
                old(self).room(),
                old(self).recorded(),
                now - old(self).resized_at(),
            ),
            r == (final(self).room() != old(self).room()),
    {
        let recorded: usize = self.timeouts.len();
        let room: usize = self.capacity;
        if recorded >= room && recorded - room >= INBOX_COUNT {
            self.capacity = room * 2;
        } else if room > MIN_CAPACITY && recorded < room / 4 && (now - self.last_resize)
            / NANOS_PER_SEC > MAX_SHRINK_INTERVAL {
            self.capacity = room / 2;
        }
        assert(self.running() =~= old(self).running());
        self.capacity != room
    }

    /// Begins to move the timers to a timer with the new room: all are taken out, to be set again.
    pub fn begin_resize(&mut self, now: u64) -> (r: Vec<(SessionTimerPayload, u64)>)
        requires
            old(self).wf(),
        ensures
            final(self).wf(),
            final(self).running() == Map::<SessionTimerPayload, u64>::empty(),
            final(self).records() == Map::<SessionTimerPayload, u64>::empty(),
            final(self).recorded() == 0,
            final(self).room() == old(self).room(),
            final(self).resized_at() == now,
            r@.len() == old(self).recorded(),
            forall|i: int, j: int|
                0 <= i < r@.len() && 0 <= j < r@.len() && i != j ==> (#[trigger] r@[i]).0 != (
                #[trigger] r@[j]).0,
            forall|p: SessionTimerPayload| #[trigger]
                old(self).records().contains_key(p) ==> r@.contains((p, old(self).records()[p])),
            forall|i: int|
                0 <= i < r@.len() ==> old(self).records().contains_key((#[trigger] r@[i]).0)
                    && old(self).records()[r@[i].0] == r@[i].1,
    {
        let mut taken: Vec<(SessionTimerPayload, u64)> = Vec::new();
        let n: usize = self.timeouts.len();
        let mut i: usize = 0;
        while i < n
            invariant
                i <= n == self.timeouts.keys().len(),
                *self == *old(self),
                taken@.len() == i,
                forall|j: int|
                    0 <= j < i ==> (#[trigger] taken@[j]).0 == self.timeouts.keys()[j]
                        && self.timeouts@.contains_key(self.timeouts.keys()[j]) && taken@[j].1
                        == self.timeouts@[self.timeouts.keys()[j]].0,
            decreases n - i,
        {
            let payload = *self.timeouts.key_at(i);
            let entry = self.timeouts.value_at(i);
            let end: u64 = entry.0;
            assert(end == self.timeouts@[self.timeouts.keys()[i as int]].0);
            assert(self.timeouts@.contains_key(self.timeouts.keys()[i as int]));
            assert(payload == self.timeouts.keys()[i as int]);
            taken.push((payload, end));
            assert(taken@[i as int] == (payload, end));
            i = i + 1;
        }
        proof {
            self.timeouts.lemma_keys();
            let keys = self.timeouts.keys();
            assert forall|p: SessionTimerPayload| #[trigger]
                self.records().contains_key(p) implies taken@.contains((p, self.records()[p])) by {
                assert(keys.contains(p));
                let j = choose|j: int| 0 <= j < keys.len() && keys[j] == p;
                assert(taken@[j] == (p, self.records()[p]));
            }
        }
        self.timer = timer_build(NUM_SLOTS, TICK_MS, self.capacity);
        self.timeouts = AssocMap::new();
        self.last_resize = now;
        assert(self.running() =~= Map::<SessionTimerPayload, u64>::empty());
        assert(self.records() =~= Map::<SessionTimerPayload, u64>::empty());
        taken
    }
}

/// How long a timer that is to run out at `end` has to run. `None` where that time has come.
pub fn delay(end: u64, now: u64) -> (r: Option<u64>)
    ensures
        r == (if end > now {
            Some((end - now) as u64)
        } else {
            None
        }),
{
    if end > now {
        Some(end - now)
    } else {
        None
    }
}

/// The room after a look at it: doubled where `INBOX_COUNT` timers more than fit are on record;
/// halved, down to `MIN_CAPACITY`, where less than a quarter of it is used and it has stood for
/// more than `MAX_SHRINK_INTERVAL` seconds.
pub open spec fn new_room(room: usize, recorded: nat, since_nanos: int) -> usize {
    if recorded >= room + INBOX_COUNT {
        (room * 2) as usize
    } else if room > MIN_CAPACITY && recorded < room / 4 && since_nanos / (NANOS_PER_SEC as int)
        > MAX_SHRINK_INTERVAL {
        room / 2
    } else {
        room
    }
}

/// `true` iff the clock is to be read again before the `i`-th timer, from zero, is set anew.
pub fn clock_is_stale(i: usize) -> (r: bool)
    requires
        i < usize::MAX,
    ensures
        r == ((i + 1) % (CLOCK_INTERVAL as int) == 0),
{
    (i + 1) % CLOCK_INTERVAL == 0
}

/// `true` iff there is time to rest: nothing was left to do and no timer was moved.
pub fn may_rest(inbox_busy: bool, timer_busy: bool, resized: bool) -> (r: bool)
    ensures
        r == (!inbox_busy && !timer_busy && !resized),
{
    !resized && !(inbox_busy || timer_busy)
}

/// Law: the room is doubled as soon as sixty timers more than fit are on record, and not before. It is
/// halved only where less than a quarter is used and more than fifteen minutes have passed, and never
/// below the least.
pub proof fn law_room_follows_the_timers(room: usize, recorded: nat, since_nanos: int)
    requires
        room * 2 <= usize::MAX,
        room >= MIN_CAPACITY,
        since_nanos >= 0,
    ensures
        ({
            let after = new_room(room, recorded, since_nanos);
            &&& recorded >= room + 60 <==> after > room
            &&& after > room ==> after == room * 2
            &&& after < room ==> after == room / 2 && recorded < room / 4 && since_nanos
                >= 901 * 1_000_000_000
            &&& room > 4096 && recorded < room / 4 && since_nanos >= 901 * 1_000_000_000 ==> after
                == room / 2
            &&& room == 4096 ==> after >= room
        }),
{
}

} // verus!
