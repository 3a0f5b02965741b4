//! How fast a trace is replayed.

use vstd::prelude::*;

verus! {

/// What the time of a record means for the replay.
#[derive(Clone, Copy, Debug, PartialEq, Eq, Structural)]
pub enum Tick {
    /// The replay is at that time already.
    Current,
    /// The replay starts at that time.
    Start,
    /// The replay goes on to that time, which is so many seconds later.
    Advance(u64),
}

/// Paces the replay of a trace. Its own time runs in nanoseconds from when it
/// was made.
pub struct Pacer {
    ts_sec: u64,
    next: u128,
}

/// A pacer as a mathematical value.
#[verifier::ext_equal]
pub struct PacerView {
    /// The time of the trace that was reached, in seconds. It is zero before
    /// the start.
    pub reached: nat,
    /// When what is read now is due.
    pub due: nat,
}

impl View for Pacer {
    type V = PacerView;

    closed spec fn view(&self) -> PacerView {
        PacerView { reached: self.ts_sec as nat, due: self.next as nat }
    }
}

/// What `ts` means to a replay that has reached `reached`.
pub open spec fn tick(reached: nat, ts: nat) -> Tick {
    if ts <= reached {
        Tick::Current
    } else if reached == 0 {
        Tick::Start
    } else {
        Tick::Advance((ts - reached) as u64)
    }
}

/// The time that is reached with `ts`. A trace does not go back.
pub open spec fn advanced(reached: nat, ts: nat) -> nat {
    if ts <= reached {
        reached
    } else {
        ts
    }
}

impl Pacer {
    /// A pacer before the start. What comes first is due at once.
    pub fn new() -> (r: Pacer)
        ensures
            r@ == (PacerView { reached: 0, due: 0 }),
    {
        Pacer { ts_sec: 0, next: 0 }
    }

    /// Takes note of the time of a record.
    pub fn observe(&mut self, ts: u64) -> (r: Tick)
        ensures
            r == tick(old(self)@.reached, ts as nat),
            r matches Tick::Advance(secs) ==> secs == ts - old(self)@.reached,
            final(self)@ == (PacerView {
                reached: advanced(old(self)@.reached, ts as nat),
                ..old(self)@
            }),
    {
        if ts > self.ts_sec {
            let before: u64 = self.ts_sec;
            self.ts_sec = ts;
            if before != 0 {
                Tick::Advance(ts - before)
            } else {
                Tick::Start
            }
        } else {
            Tick::Current
        }
    }

    /// Whether what is read now can be put off by so many nanoseconds.
    pub fn can_delay(&self, pause: u128) -> (r: bool)
        ensures
            r == (self@.due + pause <= u128::MAX),
    {
        pause <= u128::MAX - self.next
    }

    /// Puts off what is read now by so many nanoseconds, and says whether it is
    /// overdue all the same.
    pub fn delay(&mut self, pause: u128, now: u128) -> (r: bool)
        requires
            old(self)@.due + pause <= u128::MAX,
        ensures
            final(self)@ == (PacerView { due: old(self)@.due + pause as nat, ..old(self)@ }),
            r == (now > final(self)@.due),
    {
        self.next = self.next + pause;
        now > self.next
    }

    /// Whether what is read now is not due yet.
    pub fn early(&self, now: u128) -> (r: bool)
        ensures
            r == (now < self@.due),
    {
        now < self.next
    }
}

/// The time that a trace with these times reaches.
pub open spec fn reached(times: Seq<u64>) -> nat
    decreases times.len(),
{
    if times.len() == 0 {
        0
    } else {
        advanced(reached(times.drop_last()), times.last() as nat)
    }
}

/// By how many seconds, in all, a trace with these times is put off.
pub open spec fn put_off(times: Seq<u64>) -> nat
    decreases times.len(),
{
    if times.len() == 0 {
        0
    } else {
        let before = put_off(times.drop_last());
        match tick(reached(times.drop_last()), times.last() as nat) {
            Tick::Advance(secs) => before + secs as nat,
            _ => before,
        }
    }
}

/// The time of the first record that has one.
pub open spec fn started_at(times: Seq<u64>) -> nat
    decreases times.len(),
{
    if times.len() == 0 {
        0
    } else if started_at(times.drop_last()) > 0 {
        started_at(times.drop_last())
    } else {
        times.last() as nat
    }
}

/// The pauses of a replay add up to the time that its trace took: from the first
/// time in it to the latest. The latest is no earlier than any of them, and is
/// one of them once there is one.
pub proof fn lemma_pauses_add_up(times: Seq<u64>)
    ensures
        put_off(times) == reached(times) - started_at(times),
        forall|i: int| 0 <= i < times.len() ==> #[trigger] times[i] <= reached(times),
        reached(times) > 0 ==> exists|i: int|
            0 <= i < times.len() && #[trigger] times[i] == reached(times),
        reached(times) == 0 <==> started_at(times) == 0,
        reached(times) <= u64::MAX,
    decreases times.len(),
{
    if times.len() > 0 {
        let fewer = times.drop_last();
        lemma_pauses_add_up(fewer);
        assert forall|i: int| 0 <= i < times.len() implies #[trigger] times[i] <= reached(
            times,
        ) by {
            if i < fewer.len() {
                assert(fewer[i] <= reached(fewer));
            }
        }
        if reached(times) > 0 {
            if times.last() > reached(fewer) {
                assert(times[times.len() - 1] == reached(times));
            } else {
                let i = choose|i: int| 0 <= i < fewer.len() && #[trigger] fewer[i] == reached(
                    fewer,
                );
                assert(times[i] == reached(times));
            }
        }
    }
}

} // verus!
