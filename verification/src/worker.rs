//! A worker: a pool of sessions, the requests it gives them, and what it does
//! about the events that are polled of them.

use crate::buffer::{append, as_slice, buffered, is_empty};
use crate::event::{
    after_flush, after_handshake, answers, checked, closed, distance, following, reading,
    rechecked, writing, Cause, Event, Reply, Step,
};
use crate::metrics::{count, counted, Metrics};
use crate::pool::{
    get, get_mut, insert, stored, vacant_key, vacated, with_capacity, Session,
    SessionView, Token, SLOT_BOUND,
};
use crate::queue::{
    came_out, drawn_request, lemma_next_draw_is_in_order, may_give, taken, Draw, Outlet,
};
use crate::request::{command, reads, stores, wire, Request, RequestView, Verb};
use crate::response::{decode, response, ParseError, Response};
use crate::values::{
    after, alphanumeric, endless, first, is_alphanumeric, lemma_values_are_alphanumeric,
    lemma_values_go_on, rng, sample, seeded, upcoming,
};
use bytes::BytesMut;
use mpmc::Queue;
use rand_xoshiro::Xoshiro256PlusPlus;
use slab::Slab;
use std::collections::VecDeque;
use vstd::prelude::*;
use vstd::utf8::encode_utf8;

verus! {

/// Sends requests over a pool of sessions, one request at a time on each.
pub struct Worker {
    sessions: Slab<Session>,
    ready_queue: VecDeque<Token>,
    work: Outlet,
    rng: Xoshiro256PlusPlus,
    metrics: Metrics,
    deeds: Ghost<Seq<Deed>>,
}

/// Something that a worker did.
pub enum Deed {
    /// It gave the session under this token this request to write.
    Sent(usize, RequestView),
    /// It took a response from the session under this token.
    Answered(usize),
}

/// A worker as a mathematical value.
#[verifier::ext_equal]
pub struct WorkerView {
    /// The sessions, each under its token.
    pub sessions: Map<usize, SessionView>,
    /// The tokens of the sessions that wait for a request, the next in front.
    pub ready: Seq<usize>,
    /// The queue that the requests are taken from.
    pub work: Queue<Request>,
    /// What came out of the queue, each time that the worker asked: a request, or
    /// nothing.
    pub drawn: Seq<Option<Draw>>,
    /// What the worker did so far, one thing after the other.
    pub deeds: Seq<Deed>,
    /// The characters that the values to come are made of.
    pub values: Map<nat, u8>,
    /// The counts so far.
    pub metrics: Metrics,
}

impl WorkerView {
    /// What holds of every worker: its tokens are the numbers below the size of
    /// its pool, each session knows its token, only sessions of the pool wait for
    /// a request, what came out of the queue did so in the order in which it had
    /// gone in, and there is no end to its values, which are letters and digits.
    pub open spec fn valid(self) -> bool {
        &&& self.sessions.dom().finite()
        &&& forall|k: usize| #[trigger]
            self.sessions.dom().contains(k) <==> k < self.sessions.len()
        &&& forall|k: usize| #[trigger]
            self.sessions.dom().contains(k) ==> self.sessions[k].token == k
        &&& forall|i: int|
            0 <= i < self.ready.len() ==> self.sessions.dom().contains(#[trigger] self.ready[i])
        &&& came_out(self.work, self.drawn)
        &&& endless(self.values)
        &&& alphanumeric(self.values)
    }

    /// The same worker with `session` under `token`.
    pub open spec fn with_session(self, token: usize, session: SessionView) -> WorkerView {
        WorkerView { sessions: self.sessions.insert(token, session), ..self }
    }
}

/// A session that changes in place, under its own token, leaves a worker valid.
proof fn lemma_session_in_place(worker: WorkerView, token: usize, session: SessionView)
    requires
        worker.valid(),
        worker.sessions.dom().contains(token),
        session.token == token,
    ensures
        worker.with_session(token, session).valid(),
{
    assert(worker.sessions.insert(token, session).dom() =~= worker.sessions.dom());
}

/// A worker with `poolsize` fresh sessions, all of which wait for a request from
/// `work`.
pub open spec fn fresh(poolsize: nat, work: Queue<Request>) -> WorkerView {
    WorkerView {
        sessions: Map::new(
            |k: usize| k < poolsize,
            |k: usize| SessionView { token: k, received: seq![], pending: seq![] },
        ),
        ready: Seq::new(poolsize, |i: int| i as usize),
        work,
        drawn: seq![],
        deeds: seq![],
        values: seeded(0),
        metrics: Metrics { request: 0, request_get: 0, response: 0, response_hit: 0 },
    }
}

/// How many bytes a request takes on the wire.
pub open spec fn wire_len(request: RequestView) -> nat {
    let line = encode_utf8(command(request)).len();
    if stores(request.verb) {
        line + request.vlen + encode_utf8("\r\n"@).len()
    } else {
        line
    }
}

/// Whether the session under `token` can still take `request`: all that it has
/// to write must fit an allocation.
pub open spec fn fits(worker: WorkerView, token: usize, request: RequestView) -> bool {
    worker.sessions[token].pending.len() + wire_len(request) <= isize::MAX
}

/// The worker after `request` was put behind what the session under `token`
/// has to write. The value, where there is one, is made of the next characters.
pub open spec fn sent(worker: WorkerView, token: usize, request: RequestView) -> WorkerView {
    let session = worker.sessions[token];
    let value = first(worker.values, request.vlen);
    WorkerView {
        sessions: worker.sessions.insert(
            token,
            SessionView { pending: session.pending + wire(request, value), ..session },
        ),
        deeds: worker.deeds.push(Deed::Sent(token, request)),
        values: after(worker.values, request.vlen),
        metrics: Metrics {
            request: counted(worker.metrics.request),
            request_get: if reads(request.verb) {
                counted(worker.metrics.request_get)
            } else {
                worker.metrics.request_get
            },
            ..worker.metrics
        },
        ..worker
    }
}

/// The worker after `draw` came out of the queue.
pub open spec fn drew(worker: WorkerView, draw: Option<Draw>) -> WorkerView {
    WorkerView { drawn: worker.drawn.push(draw), ..worker }
}

/// What became of the attempt to give a session a request.
#[derive(Clone, Copy, Debug, PartialEq, Eq, Structural)]
pub enum Dispatch {
    /// The session under this token has a request to write.
    Sent(Token),
    /// There was no request to give, or no session to give it to.
    Idle,
    /// A request had been taken that is larger than the session can hold.
    Overflow,
}

/// The worker after its next ready session was given `work`, and what became of
/// it. Without a request the session stays the next.
pub open spec fn started(worker: WorkerView, work: Option<RequestView>) -> (
    WorkerView,
    Dispatch,
) {
    let token = worker.ready[0];
    match work {
        Some(request) => if fits(worker, token, request) {
            (
                sent(WorkerView { ready: worker.ready.drop_first(), ..worker }, token, request),
                Dispatch::Sent(Token(token)),
            )
        } else {
            (worker, Dispatch::Overflow)
        },
        None => (worker, Dispatch::Idle),
    }
}

/// The worker after the session under `token`, which has just been answered, was
/// given `work`, and what became of it. Without a request the session goes last
/// among those that wait.
pub open spec fn continued(
    worker: WorkerView,
    token: usize,
    work: Option<RequestView>,
) -> (WorkerView, Dispatch) {
    match work {
        Some(request) => if fits(worker, token, request) {
            (sent(worker, token, request), Dispatch::Sent(Token(token)))
        } else {
            (worker, Dispatch::Overflow)
        },
        None => (
            WorkerView { ready: worker.ready.push(token), ..worker },
            Dispatch::Idle,
        ),
    }
}

/// The worker after `answer` was taken from what came in on the session under
/// `token`.
pub open spec fn decoded(worker: WorkerView, token: usize, answer: Response) -> WorkerView {
    let session = worker.sessions[token];
    WorkerView {
        sessions: worker.sessions.insert(
            token,
            SessionView { received: session.received.skip(answer.len as int), ..session },
        ),
        metrics: Metrics {
            response_hit: if answer.hit {
                counted(worker.metrics.response_hit)
            } else {
                worker.metrics.response_hit
            },
            ..worker.metrics
        },
        ..worker
    }
}

/// The worker after one more response was counted, on the session under `token`.
pub open spec fn answered(worker: WorkerView, token: usize) -> WorkerView {
    WorkerView {
        deeds: worker.deeds.push(Deed::Answered(token)),
        metrics: Metrics { response: counted(worker.metrics.response), ..worker.metrics },
        ..worker
    }
}

/// Whether the next ready session, if there is one, was given what came out of the
/// queue, whatever that was: `dispatch` reports what became of it and `next` is the
/// worker then. With no session ready the queue is not asked.
pub open spec fn dispatched(worker: WorkerView, next: WorkerView, dispatch: Dispatch) -> bool {
    if worker.ready.len() == 0 {
        next == worker && dispatch == Dispatch::Idle
    } else {
        exists|draw: Option<Draw>|
            may_give(worker.work, worker.drawn, draw) && (next, dispatch) == #[trigger] started(
                drew(worker, draw),
                drawn_request(draw),
            )
    }
}

/// Whether a session that was answered was given what came out of the queue,
/// whatever that was: `step` reports what became of it and `next` is the worker
/// then.
pub open spec fn went_on(worker: WorkerView, token: usize, next: WorkerView, step: Step) -> bool {
    exists|draw: Option<Draw>|
        {
            let (given, dispatch) = #[trigger] continued(
                drew(worker, draw),
                token,
                drawn_request(draw),
            );
            &&& may_give(worker.work, worker.drawn, draw)
            &&& next == given
            &&& step == Step::Responded(dispatch)
        }
}

/// What a read comes to: `step` is the step after it, and `next` the worker then.
/// Nothing to read yet ends the event, the end of the connection and a failure
/// close it, and of what came in the response at the front is taken, if it is
/// all there.
pub open spec fn was_read(
    worker: WorkerView,
    event: Event,
    result: Result<Option<usize>, ()>,
    next: WorkerView,
    step: Step,
) -> bool {
    let token = event.token.0;
    match result {
        Ok(None) => step == Step::Done && next == worker,
        Ok(Some(n)) => if n == 0 {
            step == Step::Close(Cause::Hangup) && next == worker
        } else {
            match response(worker.sessions[token].received) {
                Some(answer) => went_on(
                    answered(decoded(worker, token, answer), token),
                    token,
                    next,
                    step,
                ),
                None => step == Step::Done && next == worker,
            }
        },
        Err(_) => step == Step::Close(Cause::ReadFailed) && next == worker,
    }
}

impl View for Worker {
    type V = WorkerView;

    closed spec fn view(&self) -> WorkerView {
        WorkerView {
            sessions: stored(self.sessions).map_values(|s: Session| s@),
            ready: self.ready_queue@.map_values(|t: Token| t.0),
            work: self.work.queue(),
            drawn: self.work.log(),
            deeds: self.deeds@,
            values: upcoming(self.rng),
            metrics: self.metrics,
        }
    }
}

impl Worker {
    /// What holds of every worker.
    pub open spec fn valid(&self) -> bool {
        self@.valid()
    }

    /// A worker with `poolsize` fresh sessions that takes its requests from
    /// `work`.
    pub fn new(poolsize: usize, work: Queue<Request>) -> (r: Worker)
        requires
            poolsize * SLOT_BOUND <= isize::MAX,
        ensures
            r.valid(),
            r@ == fresh(poolsize as nat, work),
    {
        let mut sessions: Slab<Session> = with_capacity(poolsize);
        let mut ready_queue: VecDeque<Token> = VecDeque::with_capacity(poolsize);
        for i in 0..poolsize
            invariant
                poolsize * SLOT_BOUND <= isize::MAX,
                vacated(sessions).len() == 0,
                stored(sessions).dom().finite(),
                stored(sessions).len() == i,
                forall|k: usize| #[trigger] stored(sessions).dom().contains(k) <==> k < i,
                forall|k: usize| k < i ==> (#[trigger] stored(sessions)[k])@ == (SessionView {
                    token: k,
                    received: seq![],
                    pending: seq![],
                }),
                ready_queue@.len() == i,
                forall|j: int| 0 <= j < i ==> (#[trigger] ready_queue@[j]).0 == j,
        {
            let token: Token = Token(vacant_key(&sessions));
            ready_queue.push_back(token);
            insert(&mut sessions, Session::new(token));
        }
        let worker: Worker = Worker {
            sessions,
            ready_queue,
            work: Outlet::new(work),
            rng: rng(),
            metrics: Metrics::new(),
            deeds: Ghost(Seq::empty()),
        };
        assert(worker@.sessions =~= fresh(poolsize as nat, work).sessions);
        assert(worker@.ready =~= fresh(poolsize as nat, work).ready);
        assert(worker@.sessions.dom() =~= stored(worker.sessions).dom());
        worker
    }

    /// Whether there is a session under `token`.
    pub fn has_session(&self, token: Token) -> (r: bool)
        ensures
            r == self@.sessions.dom().contains(token.0),
    {
        get(&self.sessions, token.0).is_some()
    }

    /// Whether the session under `token` can still take `request`.
    pub fn can_take(&self, token: Token, request: &Request) -> (r: bool)
        requires
            self@.sessions.dom().contains(token.0),
        ensures
            r == fits(self@, token.0, request@),
    {
        match get(&self.sessions, token.0) {
            Some(session) => {
                let line: String = request.command_line();
                let mut left: usize = isize::MAX as usize;
                let pending: usize = as_slice(&session.write_buffer).len();
                if pending > left {
                    return false;
                }
                left = left - pending;
                let head: usize = line.as_str().as_bytes().len();
                if head > left {
                    return false;
                }
                left = left - head;
                match request.value_len() {
                    Some(vlen) => {
                        let end: usize = "\r\n".as_bytes().len();
                        vlen <= left && end <= left - vlen
                    },
                    None => true,
                }
            },
            None => false,
        }
    }

    /// Puts `request` behind what the session under `token` has to write. It is
    /// up to the caller to have the session flushed then.
    pub fn send_request(&mut self, token: Token, request: Request)
        requires
            old(self).valid(),
            old(self)@.sessions.dom().contains(token.0),
            fits(old(self)@, token.0, request@),
        ensures
            final(self).valid(),
            final(self)@ == sent(old(self)@, token.0, request@),
            forall|i: int|
                0 <= i < request@.vlen ==> is_alphanumeric(
                    #[trigger] first(old(self)@.values, request@.vlen)[i],
                ),
    {
        self.deeds = Ghost(self.deeds@.push(Deed::Sent(token.0, request@)));
        count(&mut self.metrics.request);
        match request.verb() {
            Verb::Get | Verb::Gets => {
                count(&mut self.metrics.request_get);
            },
            _ => {},
        }
        let line: String = request.command_line();
        let value: Option<Vec<u8>> = match request.value_len() {
            Some(vlen) => Some(sample(&mut self.rng, vlen)),
            None => None,
        };
        if let Some(session) = get_mut(&mut self.sessions, token.0) {
            append(&mut session.write_buffer, line.as_str().as_bytes());
            if let Some(value) = value {
                append(&mut session.write_buffer, value.as_slice());
                append(&mut session.write_buffer, "\r\n".as_bytes());
            }
        }
        let ghost target = sent(old(self)@, token.0, request@);
        assert(self@.sessions[token.0].pending =~= target.sessions[token.0].pending);
        assert(self@.sessions =~= target.sessions);
        assert(self@.values =~= target.values) by {
            lemma_values_go_on(old(self)@.values, 0, 0);
        }
        proof {
            lemma_values_go_on(old(self)@.values, request@.vlen, 0);
            lemma_values_are_alphanumeric(old(self)@.values, request@.vlen);
        }
        assert(self@.sessions.dom() =~= old(self)@.sessions.dom());
    }

    /// Gives the next ready session `work`.
    pub fn start(&mut self, work: Option<Request>) -> (r: Dispatch)
        requires
            old(self).valid(),
            old(self)@.ready.len() > 0,
        ensures
            final(self).valid(),
            (final(self)@, r) == started(old(self)@, taken(work)),
    {
        match self.ready_queue.pop_front() {
            Some(token) => {
                let ghost popped = *self;
                assert(popped@.ready =~= old(self)@.ready.drop_first());
                assert(old(self)@.ready[0] == token.0);
                match work {
                    Some(request) => {
                        if self.can_take(token, &request) {
                            self.send_request(token, request);
                            return Dispatch::Sent(token);
                        }
                        self.ready_queue.push_front(token);
                        assert(self@.ready =~= old(self)@.ready);
                        Dispatch::Overflow
                    },
                    None => {
                        self.ready_queue.push_front(token);
                        assert(self@.ready =~= old(self)@.ready);
                        Dispatch::Idle
                    },
                }
            },
            None => Dispatch::Idle,
        }
    }

    /// Gives the next ready session a request from the queue, if there are both.
    pub fn dispatch(&mut self) -> (r: Dispatch)
        requires
            old(self).valid(),
        ensures
            final(self).valid(),
            dispatched(old(self)@, final(self)@, r),
    {
        if self.ready_queue.len() == 0 {
            return Dispatch::Idle;
        }
        let work: Option<Request> = self.work.take();
        proof {
            let draw = self.work.log().last();
            assert(self@ =~= drew(old(self)@, draw));
            lemma_next_draw_is_in_order(old(self)@.work, old(self)@.drawn, draw);
        }
        self.start(work)
    }

    /// Gives the session under `token`, which has just been answered, `work`.
    pub fn go_on(&mut self, token: Token, work: Option<Request>) -> (r: Dispatch)
        requires
            old(self).valid(),
            old(self)@.sessions.dom().contains(token.0),
        ensures
            final(self).valid(),
            (final(self)@, r) == continued(old(self)@, token.0, taken(work)),
    {
        match work {
            Some(request) => {
                if self.can_take(token, &request) {
                    self.send_request(token, request);
                    Dispatch::Sent(token)
                } else {
                    Dispatch::Overflow
                }
            },
            None => {
                self.ready_queue.push_back(token);
                assert(self@.ready =~= old(self)@.ready.push(token.0));
                Dispatch::Idle
            },
        }
    }

    /// The step that writes, where there is something to write.
    fn write_step(&self, event: Event) -> (r: Step)
        requires
            self@.sessions.dom().contains(event.token.0),
        ensures
            r == writing(event, self@.sessions[event.token.0].pending),
    {
        match get(&self.sessions, event.token.0) {
            Some(session) => {
                if event.writable && !is_empty(&session.write_buffer) {
                    Step::Flush
                } else {
                    Step::Done
                }
            },
            None => Step::Done,
        }
    }

    /// The step that reads, or else the one that writes.
    fn read_step(&self, event: Event) -> (r: Step)
        requires
            self@.sessions.dom().contains(event.token.0),
        ensures
            r == reading(event, self@.sessions[event.token.0].pending),
    {
        if event.readable {
            Step::Read
        } else {
            self.write_step(event)
        }
    }

    /// The step after the session was closed for `cause`.
    fn after_close(&self, event: Event, cause: Cause) -> (r: Step)
        requires
            self@.sessions.dom().contains(event.token.0),
        ensures
            r == closed(event, cause, self@.sessions[event.token.0].pending),
    {
        match cause {
            Cause::ErrorEvent => Step::CheckHandshake,
            Cause::HandshakeFailed => Step::RecheckHandshake,
            Cause::Hangup | Cause::ParseFailed | Cause::ReadFailed => self.write_step(event),
        }
    }

    /// The step after it was found out whether the session is handshaking.
    fn after_check(&self, event: Event, handshaking: bool) -> (r: Step)
        requires
            self@.sessions.dom().contains(event.token.0),
        ensures
            r == checked(event, handshaking, self@.sessions[event.token.0].pending),
    {
        if handshaking {
            Step::Shake
        } else {
            self.read_step(event)
        }
    }

    /// The step after it was found out whether the session is still handshaking.
    fn after_recheck(&self, event: Event, handshaking: bool) -> (r: Step)
        requires
            self@.sessions.dom().contains(event.token.0),
        ensures
            r == rechecked(event, handshaking, self@.sessions[event.token.0].pending),
    {
        if handshaking {
            Step::Reregister
        } else {
            self.read_step(event)
        }
    }

    /// The step after a response was looked for in what came in: one that was
    /// found is counted, and the session is given the next request.
    pub fn after_decode(&mut self, event: Event, result: Result<(), ParseError>) -> (r: Step)
        requires
            old(self).valid(),
            old(self)@.sessions.dom().contains(event.token.0),
        ensures
            final(self).valid(),
            match result {
                Ok(_) => went_on(
                    answered(old(self)@, event.token.0),
                    event.token.0,
                    final(self)@,
                    r,
                ),
                Err(ParseError::Incomplete) => r == Step::Done && final(self)@ == old(self)@,
                Err(_) => r == Step::Close(Cause::ParseFailed) && final(self)@ == old(self)@,
            },
    {
        match result {
            Ok(_) => {
                count(&mut self.metrics.response);
                self.deeds = Ghost(self.deeds@.push(Deed::Answered(event.token.0)));
                let work: Option<Request> = self.work.take();
                proof {
                    let draw = self.work.log().last();
                    assert(self@ =~= drew(answered(old(self)@, event.token.0), draw));
                    lemma_next_draw_is_in_order(old(self)@.work, old(self)@.drawn, draw);
                }
                Step::Responded(self.go_on(event.token, work))
            },
            Err(ParseError::Incomplete) => Step::Done,
            Err(_) => Step::Close(Cause::ParseFailed),
        }
    }

    /// The step after the session was read: `result` says how many bytes came,
    /// none at all where there is nothing to read yet. What came stands in the
    /// session's buffer. A response among it is taken, and the session is given
    /// the next request.
    pub fn after_read(&mut self, event: Event, result: Result<Option<usize>, ()>) -> (r: Step)
        requires
            old(self).valid(),
            old(self)@.sessions.dom().contains(event.token.0),
        ensures
            final(self).valid(),
            distance(r) < distance(Step::Read),
            was_read(old(self)@, event, result, final(self)@, r),
    {
        match result {
            Ok(None) => Step::Done,
            Ok(Some(n)) => {
                if n == 0 {
                    Step::Close(Cause::Hangup)
                } else {
                    let found: Result<(), ParseError> = match get_mut(
                        &mut self.sessions,
                        event.token.0,
                    ) {
                        Some(session) => decode(&mut session.read_buffer, &mut self.metrics),
                        None => Err(ParseError::Incomplete),
                    };
                    proof {
                        assert(self@.sessions.dom() =~= old(self)@.sessions.dom());
                        match response(old(self)@.sessions[event.token.0].received) {
                            Some(answer) => {
                                assert(self@.sessions =~= decoded(
                                    old(self)@,
                                    event.token.0,
                                    answer,
                                ).sessions);
                            },
                            None => {
                                assert(self@.sessions =~= old(self)@.sessions);
                            },
                        }
                    }
                    self.after_decode(event, found)
                }
            },
            Err(_) => Step::Close(Cause::ReadFailed),
        }
    }

    /// Takes the reply to a step and tells the next.
    pub fn advance(&mut self, event: Event, step: Step, reply: Reply) -> (r: Step)
        requires
            old(self).valid(),
            old(self)@.sessions.dom().contains(event.token.0),
            answers(step, reply),
        ensures
            final(self).valid(),
            step != Step::Done ==> distance(r) < distance(step),
            match reply {
                Reply::Received(result) => was_read(old(self)@, event, result, final(self)@, r),
                _ => {
                    &&& r == following(
                        event,
                        step,
                        reply,
                        old(self)@.sessions[event.token.0].pending,
                    )
                    &&& final(self)@ == old(self)@
                },
            },
    {
        match (step, reply) {
            (Step::Close(cause), Reply::Done) => self.after_close(event, cause),
            (Step::CheckHandshake, Reply::Handshaking(b)) => self.after_check(event, b),
            (Step::Shake, Reply::Shaken(outcome)) => after_handshake(outcome),
            (Step::RecheckHandshake, Reply::Handshaking(b)) => self.after_recheck(event, b),
            (Step::Read, Reply::Received(result)) => self.after_read(event, result),
            (Step::Responded(_), Reply::Flushed(left)) => after_flush(left),
            (Step::Flush, Reply::Flushed(left)) => after_flush(left),
            _ => Step::Done,
        }
    }

    /// What came in on the session under `token`, for the driver to add to.
    pub fn read_buffer(&mut self, token: Token) -> (r: &mut BytesMut)
        requires
            old(self).valid(),
            old(self)@.sessions.dom().contains(token.0),
        ensures
            buffered(*r) == old(self)@.sessions[token.0].received,
            final(self).valid(),
            final(self)@ == old(self)@.with_session(
                token.0,
                SessionView {
                    received: buffered(*final(r)),
                    ..old(self)@.sessions[token.0]
                },
            ),
    {
        let ghost before = self@;
        let session: &mut Session = get_mut(&mut self.sessions, token.0).unwrap();
        let r: &mut BytesMut = &mut session.read_buffer;
        proof {
            let target = SessionView { received: buffered(*final(r)), ..before.sessions[token.0] };
            lemma_session_in_place(before, token.0, target);
            assert(after_borrow(self)@ =~= before.with_session(token.0, target));
        }
        r
    }

    /// What the session under `token` has to write, for the driver to take from.
    pub fn write_buffer(&mut self, token: Token) -> (r: &mut BytesMut)
        requires
            old(self).valid(),
            old(self)@.sessions.dom().contains(token.0),
        ensures
            buffered(*r) == old(self)@.sessions[token.0].pending,
            final(self).valid(),
            final(self)@ == old(self)@.with_session(
                token.0,
                SessionView {
                    pending: buffered(*final(r)),
                    ..old(self)@.sessions[token.0]
                },
            ),
    {
        let ghost before = self@;
        let session: &mut Session = get_mut(&mut self.sessions, token.0).unwrap();
        let r: &mut BytesMut = &mut session.write_buffer;
        proof {
            let target = SessionView { pending: buffered(*final(r)), ..before.sessions[token.0] };
            lemma_session_in_place(before, token.0, target);
            assert(after_borrow(self)@ =~= before.with_session(token.0, target));
        }
        r
    }

    /// The counts so far.
    pub fn metrics(&self) -> (r: Metrics)
        ensures
            r == self@.metrics,
    {
        self.metrics
    }
}

/// The worker after `draws` came out of the queue, one by one, for the sessions that
/// wait.
pub open spec fn started_all(worker: WorkerView, draws: Seq<Draw>) -> WorkerView
    decreases draws.len(),
{
    if draws.len() == 0 {
        worker
    } else {
        let before = started_all(worker, draws.drop_last());
        started(drew(before, Some(draws.last())), Some(draws.last().request)).0
    }
}

/// How many characters of value the requests of `draws` take.
pub open spec fn value_total(draws: Seq<Draw>) -> nat
    decreases draws.len(),
{
    if draws.len() == 0 {
        0
    } else {
        value_total(draws.drop_last()) + draws.last().request.vlen
    }
}

/// The first requests of a replay go to the sessions of the pool in the order of
/// their tokens, one to each: while there are sessions left, request `i` is all
/// that session `i` has to write, and the others wait for theirs. The values are
/// cut, one behind the other, from the characters of the seed.
pub proof fn lemma_first_requests(
    poolsize: nat,
    work: Queue<Request>,
    draws: Seq<Draw>,
)
    requires
        draws.len() <= poolsize <= usize::MAX,
        forall|i: int| 0 <= i < draws.len() ==> wire_len((#[trigger] draws[i]).request) <= isize::MAX,
    ensures
        ({
            let worker = started_all(fresh(poolsize, work), draws);
            &&& worker.ready == fresh(poolsize, work).ready.skip(draws.len() as int)
            &&& worker.values == after(seeded(0), value_total(draws))
            &&& worker.work == work
            &&& worker.drawn == draws.map_values(|draw: Draw| Some(draw))
            &&& worker.sessions.dom() == fresh(poolsize, work).sessions.dom()
            &&& forall|k: usize|
                k < poolsize ==> #[trigger] worker.sessions[k] == (SessionView {
                    token: k,
                    received: seq![],
                    pending: if k < draws.len() {
                        wire(
                            draws[k as int].request,
                            first(
                                after(seeded(0), value_total(draws.take(k as int))),
                                draws[k as int].request.vlen,
                            ),
                        )
                    } else {
                        seq![]
                    },
                })
        }),
    decreases draws.len(),
{
    let begin = fresh(poolsize, work);
    let worker = started_all(begin, draws);
    if draws.len() == 0 {
        lemma_values_go_on(seeded(0), 0, 0);
        assert(worker.ready =~= begin.ready.skip(0));
        assert(worker.drawn =~= draws.map_values(|draw: Draw| Some(draw)));
    } else {
        let fewer = draws.drop_last();
        let draw = draws.last();
        let request = draw.request;
        let count = fewer.len();
        assert forall|i: int| 0 <= i < fewer.len() implies wire_len((#[trigger] fewer[i]).request)
            <= isize::MAX by {
            assert(fewer[i] == draws[i]);
        }
        lemma_first_requests(poolsize, work, fewer);
        let before = started_all(begin, fewer);
        let token = before.ready[0];
        assert(token == count);
        assert(draws[count as int] == draw);
        assert(fits(drew(before, Some(draw)), token, request));
        assert(worker == started(drew(before, Some(draw)), Some(request)).0);
        lemma_values_go_on(seeded(0), value_total(fewer), request.vlen);
        assert(worker.ready =~= begin.ready.skip(draws.len() as int));
        assert(worker.drawn =~= draws.map_values(|draw: Draw| Some(draw)));
        assert(worker.sessions.dom() =~= begin.sessions.dom());
        assert(draws.take(count as int) =~= fewer);
        assert forall|k: usize| k < poolsize implies #[trigger] worker.sessions[k] == (
        SessionView {
            token: k,
            received: seq![],
            pending: if k < draws.len() {
                wire(
                    draws[k as int].request,
                    first(
                        after(seeded(0), value_total(draws.take(k as int))),
                        draws[k as int].request.vlen,
                    ),
                )
            } else {
                seq![]
            },
        }) by {
            if k == token {
                assert(worker.sessions[k].pending =~= wire(
                    request,
                    first(after(seeded(0), value_total(fewer)), request.vlen),
                ));
            } else {
                assert(worker.sessions[k] == before.sessions[k]);
                if k < count {
                    assert(fewer[k as int] == draws[k as int]);
                    assert(fewer.take(k as int) =~= draws.take(k as int));
                }
            }
        }
    }
}

/// A value rests on nothing but the characters in store and its length: two workers
/// with the same in store, whatever else they hold, write the same value for requests
/// of one length, and have the same left in store.
pub proof fn lemma_value_rests_on_store_and_length(
    a: WorkerView,
    b: WorkerView,
    to_a: usize,
    to_b: usize,
    for_a: RequestView,
    for_b: RequestView,
)
    requires
        a.values == b.values,
        stores(for_a.verb),
        stores(for_b.verb),
        for_a.vlen == for_b.vlen,
    ensures
        ({
            let value = first(a.values, for_a.vlen);
            &&& sent(a, to_a, for_a).sessions[to_a].pending == a.sessions[to_a].pending + wire(
                for_a,
                value,
            )
            &&& sent(b, to_b, for_b).sessions[to_b].pending == b.sessions[to_b].pending + wire(
                for_b,
                value,
            )
            &&& sent(a, to_a, for_a).values == sent(b, to_b, for_b).values
        }),
{
}

/// Bytes that are not sent yet are neither dropped nor moved by a later request. Where
/// a session has `unsent` to write and is given two requests, of which a flush between
/// them may have written the first `n` bytes out, what was written out and what is left
/// to write are together `unsent`, the first request and the second.
pub proof fn lemma_unsent_bytes_are_kept(
    worker: WorkerView,
    token: usize,
    a: RequestView,
    b: RequestView,
    n: int,
)
    requires
        0 <= n <= sent(worker, token, a).sessions[token].pending.len(),
    ensures
        ({
            let unsent = worker.sessions[token].pending;
            let then = sent(worker, token, a);
            let session = then.sessions[token];
            let flushed = then.with_session(
                token,
                SessionView { pending: session.pending.skip(n), ..session },
            );
            session.pending.take(n) + sent(flushed, token, b).sessions[token].pending == unsent
                + wire(a, first(worker.values, a.vlen)) + wire(b, first(then.values, b.vlen))
        }),
{
    let then = sent(worker, token, a);
    let pending = then.sessions[token].pending;
    let next = wire(b, first(then.values, b.vlen));
    assert(pending.take(n) + (pending.skip(n) + next) =~= pending + next);
}

/// All workers start alike: whatever their pools and their queues, they have the same
/// characters in store, and so write the same values for first requests of one length.
pub proof fn lemma_workers_start_alike(
    a: nat,
    b: nat,
    work_a: Queue<Request>,
    work_b: Queue<Request>,
    n: nat,
)
    ensures
        fresh(a, work_a).values == seeded(0),
        fresh(a, work_a).values == fresh(b, work_b).values,
        first(fresh(a, work_a).values, n) == first(fresh(b, work_b).values, n),
{
}

} // verus!
