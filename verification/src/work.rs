//! How the requests of a trace get to the workers.

use crate::queue::{doubled_to, may_take, room, with_capacity, Inlet, Offer};
use crate::request::{Request, RequestView};
use crate::tally::{settled, Tally};
use mpmc::Queue;
use vstd::prelude::*;

verus! {

/// Room for requests that were read from the trace and not sent yet; arbitrarily
/// large.
pub const WORK_ROOM: usize = 1048576;

/// A queue for the requests of a trace.
pub fn new_queue() -> (r: Queue<Request>)
    ensures
        room(r) == WORK_ROOM,
{
    proof {
        reveal_with_fuel(doubled_to, 21);
    }
    with_capacity(WORK_ROOM)
}

/// Whether `request` was offered once at an end of a queue: `before` is what had been
/// offered there, `log` what has been now, and `accepted` tells whether it went in.
pub open spec fn offered(
    queue: Queue<Request>,
    before: Seq<Offer>,
    log: Seq<Offer>,
    request: RequestView,
    accepted: bool,
) -> bool {
    &&& log == before.push(log.last())
    &&& log.last().request == request
    &&& log.last().place is Some <==> accepted
    &&& may_take(queue, before, log.last())
}

/// Tries once to hand a request to the workers: the queue takes it in, or, where
/// there is no room, it comes back as it is. Which of the two happens rests with
/// the other threads.
pub fn offer(inlet: &mut Inlet, request: Request) -> (r: Result<(), Request>)
    ensures
        final(inlet).queue() == old(inlet).queue(),
        offered(old(inlet).queue(), old(inlet).log(), final(inlet).log(), request@, r is Ok),
        r matches Err(back) ==> back == request,
{
    let result: Result<(), Request> = inlet.put(request);
    assert(inlet.log() =~= old(inlet).log().push(inlet.log().last()));
    result
}

/// Takes note of what became of a request that was offered: one that was taken
/// is counted, and one that came back has to be offered again.
pub fn after_offer(tally: &mut Tally, result: Result<(), Request>) -> (r: Option<Request>)
    requires
        result is Ok ==> old(tally).sent < usize::MAX,
    ensures
        match result {
            Ok(_) => r is None && *final(tally) == settled(*old(tally), true),
            Err(back) => r == Some(back) && *final(tally) == *old(tally),
        },
{
    match result {
        Ok(_) => {
            tally.count_sent();
            None
        },
        Err(back) => Some(back),
    }
}

/// Deals with what a record asks for. A request is offered to the workers, once,
/// and comes back where there is no room for it. A record without one is skipped,
/// and nothing is offered.
pub fn hand_over(inlet: &mut Inlet, request: Option<Request>, tally: &mut Tally) -> (r: Option<
    Request,
>)
    requires
        request is Some ==> old(tally).sent < usize::MAX,
        request is None ==> old(tally).skip < usize::MAX,
    ensures
        final(inlet).queue() == old(inlet).queue(),
        match request {
            Some(request) => offered(
                old(inlet).queue(),
                old(inlet).log(),
                final(inlet).log(),
                request@,
                r is None,
            ),
            None => final(inlet).log() == old(inlet).log(),
        },
        match (request, r) {
            (None, _) => r is None && *final(tally) == settled(*old(tally), false),
            (Some(_), None) => *final(tally) == settled(*old(tally), true),
            (Some(request), Some(back)) => back == request && *final(tally) == *old(tally),
        },
{
    match request {
        Some(request) => {
            let result: Result<(), Request> = offer(inlet, request);
            after_offer(tally, result)
        },
        None => {
            tally.count_skip();
            None
        },
    }
}

/// The requests that went into a queue, of those that were offered, in their order.
pub open spec fn accepted(log: Seq<Offer>) -> Seq<RequestView>
    decreases log.len(),
{
    if log.len() == 0 {
        seq![]
    } else if log.last().place is Some {
        accepted(log.drop_last()).push(log.last().request)
    } else {
        accepted(log.drop_last())
    }
}

} // verus!
