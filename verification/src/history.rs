//! What holds of a worker over all that it does, from its start on.

use crate::event::{Event, Step};
use crate::pool::SessionView;
use crate::request::{Request, RequestView};
use crate::response::{response, Response};
use crate::queue::{came_out, drawn_request, lemma_next_draw_is_in_order, may_give, Draw};
use crate::worker::{
    answered, continued, decoded, dispatched, drew, fresh, started, was_read, went_on, Deed,
    Dispatch, WorkerView,
};
use mpmc::Queue;
use vstd::prelude::*;

verus! {

/// Something that changes a worker.
pub enum Move {
    /// The next ready session is given what came out of the queue.
    Dispatch(Option<Draw>),
    /// This response is taken from the session under this token, which is then given
    /// what came out of the queue.
    Answer(usize, Response, Option<Draw>),
    /// The driver reads or writes the session under this token: its buffers, first
    /// what came in and then what is to be written, become these.
    Exchange(usize, Seq<u8>, Seq<u8>),
}

/// Whether a worker can make a move.
pub open spec fn permitted(worker: WorkerView, m: Move) -> bool {
    match m {
        Move::Dispatch(draw) => {
            &&& worker.ready.len() > 0
            &&& may_give(worker.work, worker.drawn, draw)
        },
        Move::Answer(token, answer, draw) => {
            &&& worker.sessions.dom().contains(token)
            &&& response(worker.sessions[token].received) == Some(answer)
            &&& may_give(worker.work, worker.drawn, draw)
        },
        Move::Exchange(token, _, _) => worker.sessions.dom().contains(token),
    }
}

/// The worker after a move, and what became of the request, if there was one.
pub open spec fn outcome(worker: WorkerView, m: Move) -> (WorkerView, Dispatch) {
    match m {
        Move::Dispatch(draw) => started(drew(worker, draw), drawn_request(draw)),
        Move::Answer(token, answer, draw) => continued(
            drew(answered(decoded(worker, token, answer), token), draw),
            token,
            drawn_request(draw),
        ),
        Move::Exchange(token, received, pending) => (
            worker.with_session(
                token,
                SessionView { received, pending, ..worker.sessions[token] },
            ),
            Dispatch::Idle,
        ),
    }
}

/// The worker after some moves.
pub open spec fn played(worker: WorkerView, moves: Seq<Move>) -> WorkerView
    decreases moves.len(),
{
    if moves.len() == 0 {
        worker
    } else {
        outcome(played(worker, moves.drop_last()), moves.last()).0
    }
}

/// Whether a worker can make some moves, one after the other, with no request among
/// them that is larger than a session can hold: such a request ends the replay.
pub open spec fn possible(worker: WorkerView, moves: Seq<Move>) -> bool
    decreases moves.len(),
{
    moves.len() > 0 ==> {
        let before = played(worker, moves.drop_last());
        &&& possible(worker, moves.drop_last())
        &&& permitted(before, moves.last())
        &&& outcome(before, moves.last()).1 != Dispatch::Overflow
    }
}

/// `Worker::dispatch` makes a move or changes nothing.
pub proof fn lemma_dispatch_is_a_move(worker: WorkerView, next: WorkerView, dispatch: Dispatch)
    requires
        dispatched(worker, next, dispatch),
    ensures
        next == worker || exists|m: Move|
            permitted(worker, m) && #[trigger] outcome(worker, m) == (next, dispatch),
{
    if worker.ready.len() > 0 {
        let draw = choose|draw: Option<Draw>|
            may_give(worker.work, worker.drawn, draw) && (next, dispatch) == #[trigger] started(
                drew(worker, draw),
                drawn_request(draw),
            );
        assert(outcome(worker, Move::Dispatch(draw)) == (next, dispatch));
    }
}

/// `Worker::advance` makes a move of a read that brings a response, and changes
/// nothing otherwise.
pub proof fn lemma_read_is_a_move(
    worker: WorkerView,
    event: Event,
    result: Result<Option<usize>, ()>,
    next: WorkerView,
    step: Step,
)
    requires
        worker.sessions.dom().contains(event.token.0),
        was_read(worker, event, result, next, step),
    ensures
        next == worker || exists|m: Move|
            permitted(worker, m) && next == #[trigger] outcome(worker, m).0 && step
                == Step::Responded(outcome(worker, m).1),
{
    let token = event.token.0;
    if next != worker {
        let answer = response(worker.sessions[token].received)->0;
        let before = answered(decoded(worker, token, answer), token);
        assert(went_on(before, token, next, step));
        let draw = choose|draw: Option<Draw>|
            {
                let (given, dispatch) = #[trigger] continued(
                    drew(before, draw),
                    token,
                    drawn_request(draw),
                );
                &&& may_give(before.work, before.drawn, draw)
                &&& next == given
                &&& step == Step::Responded(dispatch)
            };
        assert(outcome(worker, Move::Answer(token, answer, draw)).0 == next);
    }
}

/// Lending out a buffer is a move: whatever `Worker::read_buffer` or
/// `Worker::write_buffer` gives back of it, the worker then is one that an exchange
/// gives.
pub proof fn lemma_lending_is_a_move(worker: WorkerView, token: usize, bytes: Seq<u8>)
    requires
        worker.sessions.dom().contains(token),
    ensures
        ({
            let session = worker.sessions[token];
            let read = Move::Exchange(token, bytes, session.pending);
            let written = Move::Exchange(token, session.received, bytes);
            &&& permitted(worker, read)
            &&& permitted(worker, written)
            &&& outcome(worker, read).0 == worker.with_session(
                token,
                SessionView { received: bytes, ..session },
            )
            &&& outcome(worker, written).0 == worker.with_session(
                token,
                SessionView { pending: bytes, ..session },
            )
        }),
{
}

/// The requests among what came out of a queue, in their order.
pub open spec fn requests(drawn: Seq<Option<Draw>>) -> Seq<RequestView>
    decreases drawn.len(),
{
    if drawn.len() == 0 {
        seq![]
    } else {
        match drawn.last() {
            Some(draw) => requests(drawn.drop_last()).push(draw.request),
            None => requests(drawn.drop_last()),
        }
    }
}

/// The requests that a worker gave to its sessions, in their order.
pub open spec fn sends(deeds: Seq<Deed>) -> Seq<RequestView>
    decreases deeds.len(),
{
    if deeds.len() == 0 {
        seq![]
    } else {
        match deeds.last() {
            Deed::Sent(_, request) => sends(deeds.drop_last()).push(request),
            Deed::Answered(_) => sends(deeds.drop_last()),
        }
    }
}

/// Whether a worker has sent just what it took from its queue: each request once, in
/// the order in which they came out, and no other.
pub open spec fn delivered(worker: WorkerView) -> bool {
    sends(worker.deeds) == requests(worker.drawn)
}

/// A worker that has sent what it took still has after a move, unless the request is
/// larger than the session can hold.
proof fn lemma_move_delivers(worker: WorkerView, m: Move)
    requires
        permitted(worker, m),
        delivered(worker),
        outcome(worker, m).1 != Dispatch::Overflow,
    ensures
        delivered(outcome(worker, m).0),
        outcome(worker, m).0.work == worker.work,
        m is Exchange ==> outcome(worker, m).0.drawn == worker.drawn,
        m matches Move::Dispatch(draw) ==> outcome(worker, m).0.drawn == worker.drawn.push(draw),
        m matches Move::Answer(_, _, draw) ==> outcome(worker, m).0.drawn == worker.drawn.push(
            draw,
        ),
{
    let next = outcome(worker, m).0;
    match m {
        Move::Dispatch(draw) => {
            assert(next.drawn.drop_last() =~= worker.drawn);
            if let Some(Draw { request, .. }) = draw {
                assert(next.deeds.drop_last() =~= worker.deeds);
            }
        },
        Move::Answer(token, answer, draw) => {
            assert(next.drawn.drop_last() =~= worker.drawn);
            let heard = worker.deeds.push(Deed::Answered(token));
            assert(heard.drop_last() =~= worker.deeds);
            assert(sends(heard) == sends(worker.deeds));
            if let Some(Draw { request, .. }) = draw {
                assert(next.deeds.drop_last() =~= heard);
            }
        },
        Move::Exchange(_, _, _) => {},
    }
}

/// Whatever a worker does, the requests that it sends are those that it took from its
/// queue: each is sent once, in the order in which they came out, and none is dropped.
/// They came out in the order in which they had gone in, and none came out that had
/// not gone in.
pub proof fn lemma_what_is_taken_is_sent(poolsize: nat, work: Queue<Request>, moves: Seq<Move>)
    requires
        possible(fresh(poolsize, work), moves),
    ensures
        ({
            let worker = played(fresh(poolsize, work), moves);
            &&& sends(worker.deeds) == requests(worker.drawn)
            &&& worker.work == work
            &&& came_out(work, worker.drawn)
        }),
    decreases moves.len(),
{
    if moves.len() > 0 {
        let fewer = moves.drop_last();
        lemma_what_is_taken_is_sent(poolsize, work, fewer);
        let before = played(fresh(poolsize, work), fewer);
        lemma_move_delivers(before, moves.last());
        match moves.last() {
            Move::Dispatch(draw) => {
                lemma_next_draw_is_in_order(work, before.drawn, draw);
            },
            Move::Answer(_, _, draw) => {
                lemma_next_draw_is_in_order(work, before.drawn, draw);
            },
            Move::Exchange(_, _, _) => {},
        }
    }
}

/// How many requests of the session under `token` have no answer yet.
pub open spec fn outstanding(deeds: Seq<Deed>, token: usize) -> int
    decreases deeds.len(),
{
    if deeds.len() == 0 {
        0
    } else {
        let before = outstanding(deeds.drop_last(), token);
        match deeds.last() {
            Deed::Sent(to, _) => if to == token {
                before + 1
            } else {
                before
            },
            Deed::Answered(from) => if from == token {
                before - 1
            } else {
                before
            },
        }
    }
}

/// In how many places `token` waits for a request.
pub open spec fn places(ready: Seq<usize>, token: usize) -> nat
    decreases ready.len(),
{
    if ready.len() == 0 {
        0
    } else {
        places(ready.drop_last(), token) + if ready.last() == token {
            1nat
        } else {
            0
        }
    }
}

/// What the session under `token` is in for: the places in which it waits, and its
/// requests without an answer.
pub open spec fn load(worker: WorkerView, token: usize) -> int {
    places(worker.ready, token) + outstanding(worker.deeds, token)
}

/// Whether a response comes only where one is due: a move that takes one from a
/// session finds a request there that has no answer yet.
pub open spec fn due(worker: WorkerView, m: Move) -> bool {
    m matches Move::Answer(token, _, _) ==> outstanding(worker.deeds, token) > 0
}

/// Whether responses come only where one is due in all of some moves.
pub open spec fn all_due(worker: WorkerView, moves: Seq<Move>) -> bool
    decreases moves.len(),
{
    moves.len() > 0 ==> {
        &&& all_due(worker, moves.drop_last())
        &&& due(played(worker, moves.drop_last()), moves.last())
    }
}

/// The token in front that stops waiting leaves one place less to itself, and as many
/// to the others.
proof fn lemma_places_without_first(ready: Seq<usize>, token: usize)
    requires
        ready.len() > 0,
    ensures
        places(ready, token) == places(ready.drop_first(), token) + if ready[0] == token {
            1nat
        } else {
            0
        },
    decreases ready.len(),
{
    if ready.len() == 1 {
        assert(ready.drop_last() =~= Seq::<usize>::empty());
        assert(ready.drop_first() =~= Seq::<usize>::empty());
    } else {
        lemma_places_without_first(ready.drop_last(), token);
        assert(ready.drop_last().drop_first() =~= ready.drop_first().drop_last());
    }
}

/// In a fresh worker every session waits in one place.
proof fn lemma_fresh_places(poolsize: nat, token: usize)
    requires
        poolsize <= usize::MAX + 1,
    ensures
        places(Seq::new(poolsize, |i: int| i as usize), token) == if token < poolsize {
            1nat
        } else {
            0
        },
    decreases poolsize,
{
    if poolsize > 0 {
        let fewer = (poolsize - 1) as nat;
        lemma_fresh_places(fewer, token);
        assert(Seq::new(poolsize, |i: int| i as usize).drop_last() =~= Seq::new(
            fewer,
            |i: int| i as usize,
        ));
    }
}

/// What a move does to the load of the session under `token`, where responses come
/// only where one is due: nothing, unless a request turns out too large for a session
/// that was just answered.
proof fn lemma_load_after_move(worker: WorkerView, m: Move, token: usize)
    requires
        permitted(worker, m),
    ensures
        ({
            let (next, dispatch) = outcome(worker, m);
            &&& dispatch != Dispatch::Overflow ==> load(next, token) == load(worker, token)
            &&& load(next, token) <= load(worker, token)
            &&& due(worker, m) && outstanding(worker.deeds, token) >= 0 ==> outstanding(
                next.deeds,
                token,
            ) >= 0
        }),
{
    match m {
        Move::Dispatch(draw) => {
            lemma_places_without_first(worker.ready, token);
            if let Some(Draw { request, .. }) = draw {
                let grown = worker.deeds.push(Deed::Sent(worker.ready[0], request));
                assert(grown.drop_last() =~= worker.deeds);
            }
        },
        Move::Answer(from, answer, draw) => {
            let heard = worker.deeds.push(Deed::Answered(from));
            assert(heard.drop_last() =~= worker.deeds);
            assert(outstanding(heard, token) == outstanding(worker.deeds, token) - if from
                == token {
                1int
            } else {
                0
            });
            assert(worker.ready.push(from).drop_last() =~= worker.ready);
            if let Some(Draw { request, .. }) = draw {
                assert(heard.push(Deed::Sent(from, request)).drop_last() =~= heard);
            }
        },
        Move::Exchange(_, _, _) => {},
    }
}

/// A session has one request at a time. As long as responses come only where one is
/// due, this is kept by every move: the places in which a session waits and its
/// requests without an answer are at most one together.
pub proof fn lemma_one_request_at_a_time(worker: WorkerView, m: Move, token: usize)
    requires
        permitted(worker, m),
        due(worker, m),
        outstanding(worker.deeds, token) >= 0,
        places(worker.ready, token) + outstanding(worker.deeds, token) <= 1,
    ensures
        ({
            let next = outcome(worker, m).0;
            &&& outstanding(next.deeds, token) >= 0
            &&& places(next.ready, token) + outstanding(next.deeds, token) <= 1
        }),
{
    lemma_load_after_move(worker, m, token);
}

/// No session is lost or used twice. As long as responses come only where one is due,
/// every session of the pool, at any time, either waits for a request in one place or
/// has one request without an answer.
pub proof fn lemma_every_session_waits_or_is_busy(
    poolsize: nat,
    work: Queue<Request>,
    moves: Seq<Move>,
    token: usize,
)
    requires
        token < poolsize <= usize::MAX,
        possible(fresh(poolsize, work), moves),
        all_due(fresh(poolsize, work), moves),
    ensures
        ({
            let worker = played(fresh(poolsize, work), moves);
            ||| places(worker.ready, token) == 1 && outstanding(worker.deeds, token) == 0
            ||| places(worker.ready, token) == 0 && outstanding(worker.deeds, token) == 1
        }),
    decreases moves.len(),
{
    if moves.len() == 0 {
        lemma_fresh_places(poolsize, token);
    } else {
        let fewer = moves.drop_last();
        lemma_every_session_waits_or_is_busy(poolsize, work, fewer, token);
        lemma_load_after_move(played(fresh(poolsize, work), fewer), moves.last(), token);
    }
}

} // verus!
