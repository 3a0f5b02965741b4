//! The reader of a trace: what it does about each record, one step after the other,
//! until the record's request is with the workers or the record is skipped.

use crate::pacing::{
    advanced, lemma_pauses_add_up, put_off, reached, started_at, tick, Pacer, PacerView, Tick,
};
use crate::queue::{lemma_next_offer_is_in_order, may_take, taken, went_in, Inlet, Offer};
use crate::request::{Request, RequestView};
use crate::tally::{lemma_every_record_is_counted, settled, tallied, wanted, Tally};
use crate::work::{accepted, hand_over, offered};
use mpmc::Queue;
use vstd::prelude::*;

verus! {

/// What is to be done next. Each action is answered with an input, and
/// `Reader::advance` tells the action that follows.
#[derive(Clone, Copy, Debug, PartialEq, Eq, Structural)]
pub enum Action {
    /// Read the next record, and tell its time.
    Read,
    /// Tell what time it is.
    Look,
    /// Tell what time it is, and how long so many seconds of the trace take in the
    /// replay.
    Pause(u64),
    /// Sleep a little, and tell what time it is then.
    Wait,
    /// The record is due; it is overdue where the flag says so. Tell what it asks for.
    Fetch(bool),
    /// There was no room for the request. Have it tried again.
    Retry,
}

/// What came of an action. Times are in nanoseconds since the reader was made.
pub enum Input {
    /// A record was read that has this time, in seconds.
    Record(u64),
    /// What time it is.
    Time(u128),
    /// How long the pause is, and what time it is.
    Paused { pause: u128, now: u128 },
    /// What the record asks for, if it is one to replay.
    Work(Option<Request>),
    /// Nothing; the request may be tried again.
    Again,
}

/// Reads a trace and hands its requests to the workers when they are due.
pub struct Reader {
    pacer: Pacer,
    tally: Tally,
    inlet: Inlet,
    now: u128,
    action: Action,
    held: Option<Request>,
    times: Ghost<Seq<u64>>,
    fetched: Ghost<Seq<Option<RequestView>>>,
}

/// A reader as a mathematical value.
#[verifier::ext_equal]
pub struct ReaderView {
    /// How far the replay is, and when what is read now is due.
    pub pacer: PacerView,
    /// What time it was when it was last told.
    pub now: nat,
    /// What is to be done next.
    pub action: Action,
    /// The request that found no room, if there is one.
    pub held: Option<RequestView>,
    /// The counts so far.
    pub tally: Tally,
    /// The queue that the requests are handed to.
    pub queue: Queue<Request>,
    /// What was offered to the queue so far.
    pub offers: Seq<Offer>,
    /// The times of the records that were read so far.
    pub times: Seq<u64>,
    /// What the records asked for whose time had come so far.
    pub fetched: Seq<Option<RequestView>>,
}

/// Whether a record was read and what it asks for was not told yet.
pub open spec fn amid_record(action: Action) -> bool {
    action is Look || action is Pause || action is Wait || action is Fetch
}

impl ReaderView {
    /// What holds of every reader:
    /// - a request is asked for, or offered, only when it is due, and the reader waits
    ///   only as long as it is not;
    /// - what was read tells how far the replay is;
    /// - each record that was read is told of once;
    /// - the requests that were told of are in the queue, each once and in their order,
    ///   all of them or all but the one that found no room;
    /// - the counts tell how many these are.
    pub open spec fn valid(self) -> bool {
        &&& went_in(self.queue, self.offers)
        &&& self.pacer.reached == reached(self.times)
        &&& self.action == Action::Read || self.action is Fetch || self.action == Action::Retry
            ==> self.now >= self.pacer.due
        &&& self.action == Action::Wait ==> self.now < self.pacer.due
        &&& self.action == Action::Fetch(true) ==> self.now > self.pacer.due
        &&& self.times.len() == self.fetched.len() + if amid_record(self.action) {
            1nat
        } else {
            0
        }
        &&& self.held is Some <==> self.action == Action::Retry
        &&& match self.held {
            Some(request) => {
                &&& self.fetched.len() > 0
                &&& self.fetched.last() == Some(request)
                &&& accepted(self.offers) == wanted(self.fetched.drop_last())
                &&& self.tally == tallied(self.fetched.drop_last())
            },
            None => {
                &&& accepted(self.offers) == wanted(self.fetched)
                &&& self.tally == tallied(self.fetched)
            },
        }
    }
}

impl View for Reader {
    type V = ReaderView;

    closed spec fn view(&self) -> ReaderView {
        ReaderView {
            pacer: self.pacer@,
            now: self.now as nat,
            action: self.action,
            held: taken(self.held),
            tally: self.tally,
            queue: self.inlet.queue(),
            offers: self.inlet.log(),
            times: self.times@,
            fetched: self.fetched@,
        }
    }
}

/// Whether an input is one to an action.
pub open spec fn replies(action: Action, input: Input) -> bool {
    match action {
        Action::Read => input is Record,
        Action::Look | Action::Wait => input is Time,
        Action::Pause(_) => input is Paused,
        Action::Fetch(_) => input is Work,
        Action::Retry => input is Again,
    }
}

/// A reader before the first record, which hands its requests to `queue`.
pub open spec fn opened(queue: Queue<Request>) -> ReaderView {
    ReaderView {
        pacer: PacerView { reached: 0, due: 0 },
        now: 0,
        action: Action::Read,
        held: None,
        tally: Tally { sent: 0, skip: 0 },
        queue,
        offers: seq![],
        times: seq![],
        fetched: seq![],
    }
}

/// The reader after a record of time `ts` was read. A time that the replay has reached
/// already is due at once, and any other after its pause, if there is one.
pub open spec fn was_read(reader: ReaderView, ts: u64) -> ReaderView {
    ReaderView {
        pacer: PacerView {
            reached: advanced(reader.pacer.reached, ts as nat),
            ..reader.pacer
        },
        action: match tick(reader.pacer.reached, ts as nat) {
            Tick::Current => Action::Fetch(false),
            Tick::Start => Action::Look,
            Tick::Advance(secs) => Action::Pause(secs),
        },
        times: reader.times.push(ts),
        ..reader
    }
}

/// The reader after it was told the time: it waits as long as the record is not due.
pub open spec fn was_told(reader: ReaderView, now: nat, late: bool) -> ReaderView {
    ReaderView {
        now,
        action: if now < reader.pacer.due {
            Action::Wait
        } else {
            Action::Fetch(late)
        },
        ..reader
    }
}

/// The reader after the record was put off by `pause`.
pub open spec fn was_put_off(reader: ReaderView, pause: nat, now: nat) -> ReaderView {
    let due = reader.pacer.due + pause;
    was_told(
        ReaderView { pacer: PacerView { due, ..reader.pacer }, ..reader },
        now,
        now > due,
    )
}

/// The reader after it was told what a record asks for.
pub open spec fn was_fetched(reader: ReaderView, work: Option<RequestView>) -> ReaderView {
    ReaderView { fetched: reader.fetched.push(work), ..reader }
}

/// Whether `next` is the reader after `request` was offered once: it is in the queue
/// and counted, and the next record may be read, or it is held to be offered again.
pub open spec fn was_offered(reader: ReaderView, request: RequestView, next: ReaderView) -> bool {
    let room = next.action == Action::Read;
    &&& offered(reader.queue, reader.offers, next.offers, request, room)
    &&& next == (ReaderView {
        offers: next.offers,
        action: if room {
            Action::Read
        } else {
            Action::Retry
        },
        held: if room {
            None
        } else {
            Some(request)
        },
        tally: if room {
            settled(reader.tally, true)
        } else {
            reader.tally
        },
        ..reader
    })
}

/// The reader after a record that asks for nothing was skipped.
pub open spec fn was_skipped(reader: ReaderView) -> ReaderView {
    ReaderView { action: Action::Read, tally: settled(reader.tally, false), ..reader }
}

/// Whether `next` is the reader after `input`.
pub open spec fn went_on(reader: ReaderView, input: Input, next: ReaderView) -> bool {
    match input {
        Input::Record(ts) => next == was_read(reader, ts),
        Input::Time(now) => next == was_told(reader, now as nat, false),
        Input::Paused { pause, now } => next == was_put_off(reader, pause as nat, now as nat),
        Input::Work(Some(request)) => was_offered(
            was_fetched(reader, Some(request@)),
            request@,
            next,
        ),
        Input::Work(None) => next == was_skipped(was_fetched(reader, None)),
        Input::Again => was_offered(reader, reader.held->0, next),
    }
}

/// An input leaves a reader valid.
proof fn lemma_input_keeps_valid(reader: ReaderView, input: Input, next: ReaderView)
    requires
        reader.valid(),
        replies(reader.action, input),
        went_on(reader, input, next),
    ensures
        next.valid(),
{
    match input {
        Input::Record(ts) => {
            assert(next.times.drop_last() =~= reader.times);
        },
        Input::Work(work) => {
            assert(next.fetched.drop_last() =~= reader.fetched);
            if let Some(request) = work {
                lemma_offer_is_entered(reader, next);
            }
        },
        Input::Again => {
            lemma_offer_is_entered(reader, next);
        },
        _ => {},
    }
}

/// What an offer does to what is in the queue.
proof fn lemma_offer_is_entered(reader: ReaderView, next: ReaderView)
    requires
        went_in(reader.queue, reader.offers),
        next.offers == reader.offers.push(next.offers.last()),
        may_take(reader.queue, reader.offers, next.offers.last()),
    ensures
        went_in(reader.queue, next.offers),
        accepted(next.offers) == if next.offers.last().place is Some {
            accepted(reader.offers).push(next.offers.last().request)
        } else {
            accepted(reader.offers)
        },
{
    lemma_next_offer_is_in_order(reader.queue, reader.offers, next.offers.last());
    assert(next.offers.drop_last() =~= reader.offers);
}

impl Reader {
    /// What holds of every reader.
    pub open spec fn valid(&self) -> bool {
        self@.valid()
    }

    /// A reader before the first record, which hands its requests to `queue`.
    pub fn new(queue: Queue<Request>) -> (r: Reader)
        ensures
            r.valid(),
            r@ == opened(queue),
    {
        Reader {
            pacer: Pacer::new(),
            tally: Tally::new(),
            inlet: Inlet::new(queue),
            now: 0,
            action: Action::Read,
            held: None,
            times: Ghost(Seq::empty()),
            fetched: Ghost(Seq::empty()),
        }
    }

    /// The counts so far.
    pub fn tally(&self) -> (r: Tally)
        ensures
            r == self@.tally,
    {
        self.tally
    }

    /// Whether what is read now can be put off by so many nanoseconds.
    pub fn can_pause(&self, pause: u128) -> (r: bool)
        ensures
            r == (self@.pacer.due + pause <= u128::MAX),
    {
        self.pacer.can_delay(pause)
    }

    /// The action after a record of time `ts` was read.
    fn on_record(&mut self, ts: u64)
        ensures
            final(self)@ == was_read(old(self)@, ts),
    {
        self.times = Ghost(self.times@.push(ts));
        self.action = match self.pacer.observe(ts) {
            Tick::Current => Action::Fetch(false),
            Tick::Start => Action::Look,
            Tick::Advance(secs) => Action::Pause(secs),
        };
    }

    /// The action after the time was told.
    fn on_time(&mut self, now: u128, late: bool)
        ensures
            final(self)@ == was_told(old(self)@, now as nat, late),
    {
        self.now = now;
        self.action = if self.pacer.early(now) {
            Action::Wait
        } else {
            Action::Fetch(late)
        };
    }

    /// Hands what a record asks for to the workers, once, or skips the record.
    fn on_work(&mut self, work: Option<Request>)
        requires
            old(self)@.held is None,
            work is Some ==> old(self)@.tally.sent < usize::MAX,
            work is None ==> old(self)@.tally.skip < usize::MAX,
        ensures
            match work {
                Some(request) => was_offered(old(self)@, request@, final(self)@),
                None => final(self)@ == was_skipped(old(self)@),
            },
    {
        self.held = hand_over(&mut self.inlet, work, &mut self.tally);
        self.action = match &self.held {
            Some(_) => Action::Retry,
            None => Action::Read,
        };
    }

    /// Takes the input to an action and tells the next. A request is offered to the
    /// workers only when it is due.
    pub fn advance(&mut self, input: Input) -> (r: Action)
        requires
            old(self).valid(),
            replies(old(self)@.action, input),
            input matches Input::Paused { pause, .. } ==> old(self)@.pacer.due + pause
                <= u128::MAX,
            input matches Input::Work(Some(_)) ==> old(self)@.tally.sent < usize::MAX,
            input matches Input::Work(None) ==> old(self)@.tally.skip < usize::MAX,
            input is Again ==> old(self)@.tally.sent < usize::MAX,
        ensures
            final(self).valid(),
            went_on(old(self)@, input, final(self)@),
            r == final(self)@.action,
            final(self)@.offers != old(self)@.offers ==> old(self)@.now >= old(self)@.pacer.due,
    {
        let ghost told = input;
        match input {
            Input::Record(ts) => self.on_record(ts),
            Input::Time(now) => self.on_time(now, false),
            Input::Paused { pause, now } => {
                let late: bool = self.pacer.delay(pause, now);
                self.on_time(now, late);
            },
            Input::Work(work) => {
                self.fetched = Ghost(self.fetched@.push(taken(work)));
                assert(self@ =~= was_fetched(old(self)@, taken(work)));
                self.on_work(work);
            },
            Input::Again => {
                let held: Option<Request> = self.held.take();
                self.on_work(held);
            },
        }
        proof {
            lemma_input_keeps_valid(old(self)@, told, self@);
        }
        self.action
    }
}

/// A request is offered to the workers only when it is due: whatever the input, where
/// something new is offered the time that was last told is no earlier than when the
/// request is due, and it is the request of the record that was read last.
pub proof fn lemma_nothing_is_offered_early(reader: ReaderView, input: Input, next: ReaderView)
    requires
        reader.valid(),
        replies(reader.action, input),
        went_on(reader, input, next),
    ensures
        next.valid(),
        next.offers != reader.offers ==> {
            &&& reader.now >= reader.pacer.due
            &&& next.offers == reader.offers.push(next.offers.last())
            &&& Some(next.offers.last().request) == next.fetched.last()
            &&& next.fetched.len() == next.times.len()
        },
{
    lemma_input_keeps_valid(reader, input, next);
}

/// Every record comes to one end: when the next record may be read, what was read
/// before is settled. The requests that the records asked for are in the queue, each
/// once and in their order, and the others were skipped; the counts tell how many.
pub proof fn lemma_every_record_is_settled_once(reader: ReaderView)
    requires
        reader.valid(),
        reader.action == Action::Read,
        reader.times.len() <= usize::MAX,
    ensures
        reader.fetched.len() == reader.times.len(),
        accepted(reader.offers) == wanted(reader.fetched),
        reader.tally.sent == accepted(reader.offers).len(),
        reader.tally.sent + reader.tally.skip == reader.times.len(),
{
    lemma_every_record_is_counted(reader.fetched);
}

/// The replay is put off by the time that the trace took, and by nothing else: the
/// pauses that a reader asks for are, together, the time from the first record to the
/// latest.
pub proof fn lemma_pauses_follow_the_trace(reader: ReaderView, ts: u64)
    requires
        reader.valid(),
    ensures
        ({
            let next = was_read(reader, ts);
            &&& put_off(next.times) == put_off(reader.times) + match next.action {
                Action::Pause(secs) => secs as nat,
                _ => 0,
            }
            &&& put_off(next.times) == reached(next.times) - started_at(next.times)
        }),
{
    let next = was_read(reader, ts);
    assert(next.times.drop_last() =~= reader.times);
    lemma_pauses_add_up(next.times);
}

} // verus!
