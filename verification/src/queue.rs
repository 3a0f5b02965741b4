//! The queue of requests, a `Queue` of the `mpmc` crate, and its two ends.

use crate::request::{Request, RequestView};
use mpmc::Queue;
use vstd::prelude::*;

verus! {

/// `mpmc::Queue`, a bounded queue that threads share.
#[verifier::external_type_specification]
#[verifier::external_body]
#[verifier::reject_recursive_types(T)]
pub struct ExQueue<T>(Queue<T>);

/// How many requests a queue has room for.
pub uninterp spec fn room(queue: Queue<Request>) -> nat;

/// The requests that a queue takes in, over all its life and from whatever thread,
/// each at its place: the first at zero, the one behind it at one, and so on. Clones
/// of a queue are one queue.
pub uninterp spec fn passage(queue: Queue<Request>) -> Map<nat, RequestView>;

/// The first of `from`, twice `from`, four times `from` and so on that is no
/// less than `n`.
pub open spec fn doubled_to(n: nat, from: nat) -> nat
    decreases if n > from { n - from } else { 0 },
{
    if from == 0 || n <= from {
        from
    } else {
        doubled_to(n, 2 * from)
    }
}

/// More bytes than one place of a `Queue<Request>` takes, twice.
pub const PLACE_BOUND: usize = 256;

/// `Queue::with_capacity`: a queue with room for `capacity` requests, rounded up
/// to a power of two that is no less than two. It panics where its places would
/// take more than `isize::MAX` bytes.
#[verifier::external_body]
pub(crate) fn with_capacity(capacity: usize) -> (r: Queue<Request>)
    requires
        capacity * PLACE_BOUND <= isize::MAX,
    ensures
        room(r) == doubled_to(capacity as nat, 2),
{
    Queue::with_capacity(capacity)
}

/// A request that may have come out of a queue, as a mathematical value.
pub open spec fn taken(work: Option<Request>) -> Option<RequestView> {
    match work {
        Some(request) => Some(request@),
        None => None,
    }
}

/// A request that came out of a queue, and the place at which it had gone in.
pub struct Draw {
    pub place: nat,
    pub request: RequestView,
}

/// The request of a draw, if there is one.
pub open spec fn drawn_request(draw: Option<Draw>) -> Option<RequestView> {
    match draw {
        Some(draw) => Some(draw.request),
        None => None,
    }
}

/// Whether `place` is behind all those at which what came out, by `log`, had gone in.
pub open spec fn behind_draws(log: Seq<Option<Draw>>, place: nat) -> bool {
    forall|i: int| 0 <= i < log.len() && #[trigger] log[i] is Some ==> log[i]->0.place < place
}

/// Whether `draw` may come out of a queue at an end where `log` came out before:
/// nothing, or a request that went in, and went in behind all those.
pub open spec fn may_give(
    queue: Queue<Request>,
    log: Seq<Option<Draw>>,
    draw: Option<Draw>,
) -> bool {
    draw matches Some(draw) ==> {
        &&& passage(queue).contains_pair(draw.place, draw.request)
        &&& behind_draws(log, draw.place)
    }
}

/// Whether `log` can have come out of a queue at one end: all of it went in, and it
/// came out in the order in which it had gone in.
pub open spec fn came_out(queue: Queue<Request>, log: Seq<Option<Draw>>) -> bool {
    &&& forall|i: int|
        0 <= i < log.len() && #[trigger] log[i] is Some ==> passage(queue).contains_pair(
            log[i]->0.place,
            log[i]->0.request,
        )
    &&& forall|i: int, j: int|
        0 <= i < j < log.len() && #[trigger] log[i] is Some && #[trigger] log[j] is Some
            ==> log[i]->0.place < log[j]->0.place
}

/// One end of a queue, at which requests come out. It keeps a log of all that did.
pub struct Outlet {
    queue: Queue<Request>,
    log: Ghost<Seq<Option<Draw>>>,
}

impl Outlet {
    /// The queue.
    pub closed spec fn queue(&self) -> Queue<Request> {
        self.queue
    }

    /// What came out, each time that this end was asked: a request, or nothing.
    pub closed spec fn log(&self) -> Seq<Option<Draw>> {
        self.log@
    }

    /// An end of `queue` that was not asked yet.
    pub fn new(queue: Queue<Request>) -> (r: Outlet)
        ensures
            r.queue() == queue,
            r.log() == Seq::<Option<Draw>>::empty(),
    {
        Outlet { queue, log: Ghost(Seq::empty()) }
    }

    /// `Queue::pop`: a request that the queue has taken in, if there is one left. At
    /// one end requests come out in the order in which they went in, no place twice.
    /// Every call leaves an entry in the log. Which request it is, and whether there
    /// is one, rests with the other threads and is left unsaid.
    #[verifier::external_body]
    pub(crate) fn take(&mut self) -> (r: Option<Request>)
        ensures
            final(self).queue() == old(self).queue(),
            final(self).log().len() == old(self).log().len() + 1,
            final(self).log().drop_last() == old(self).log(),
            drawn_request(final(self).log().last()) == taken(r),
            final(self).log().last() matches Some(draw) ==> passage(
                old(self).queue(),
            ).contains_pair(draw.place, draw.request) && behind_draws(
                old(self).log(),
                draw.place,
            ),
    {
        self.queue.pop()
    }
}

/// A request that was offered to a queue, and the place at which it went in, if it did.
pub struct Offer {
    pub request: RequestView,
    pub place: Option<nat>,
}

/// Whether `place` is behind all those at which what was offered, by `log`, went in.
pub open spec fn behind_offers(log: Seq<Offer>, place: nat) -> bool {
    forall|i: int|
        0 <= i < log.len() && (#[trigger] log[i]).place is Some ==> log[i].place->0 < place
}

/// Whether `offer` may be what becomes of a request at an end where `log` was offered
/// before: it is turned away, or goes in behind all those that went in there.
pub open spec fn may_take(queue: Queue<Request>, log: Seq<Offer>, offer: Offer) -> bool {
    offer.place matches Some(place) ==> {
        &&& passage(queue).contains_pair(place, offer.request)
        &&& behind_offers(log, place)
    }
}

/// Whether `log` can have been offered at one end of a queue: what went in went in in
/// the order in which it was offered.
pub open spec fn went_in(queue: Queue<Request>, log: Seq<Offer>) -> bool {
    &&& forall|i: int|
        0 <= i < log.len() && (#[trigger] log[i]).place is Some ==> passage(queue).contains_pair(
            log[i].place->0,
            log[i].request,
        )
    &&& forall|i: int, j: int|
        0 <= i < j < log.len() && (#[trigger] log[i]).place is Some && (
        #[trigger] log[j]).place is Some ==> log[i].place->0 < log[j].place->0
}

/// The other end of a queue, at which requests go in. It keeps a log of all that
/// were offered.
pub struct Inlet {
    queue: Queue<Request>,
    log: Ghost<Seq<Offer>>,
}

impl Inlet {
    /// The queue.
    pub closed spec fn queue(&self) -> Queue<Request> {
        self.queue
    }

    /// The requests that were offered at this end, one after the other.
    pub closed spec fn log(&self) -> Seq<Offer> {
        self.log@
    }

    /// An end of `queue` at which nothing was offered yet.
    pub fn new(queue: Queue<Request>) -> (r: Inlet)
        ensures
            r.queue() == queue,
            r.log() == Seq::<Offer>::empty(),
    {
        Inlet { queue, log: Ghost(Seq::empty()) }
    }

    /// `Queue::push`: the queue takes the request in, for whoever pops it, or, where
    /// it is full, gives the request back as it is. At one end requests go in in the
    /// order in which they were offered, each at a place of its own. Every call leaves
    /// an entry in the log. Whether the queue is full rests with the other threads and
    /// is left unsaid.
    #[verifier::external_body]
    pub(crate) fn put(&mut self, request: Request) -> (r: Result<(), Request>)
        ensures
            final(self).queue() == old(self).queue(),
            final(self).log().len() == old(self).log().len() + 1,
            final(self).log().drop_last() == old(self).log(),
            final(self).log().last().request == request@,
            final(self).log().last().place is Some <==> r is Ok,
            final(self).log().last().place matches Some(place) ==> passage(
                old(self).queue(),
            ).contains_pair(place, request@) && behind_offers(old(self).log(), place),
            r matches Err(back) ==> back == request,
    {
        self.queue.push(request)
    }
}

/// What comes out of a queue next, at one end, keeps the order there.
pub proof fn lemma_next_draw_is_in_order(
    queue: Queue<Request>,
    log: Seq<Option<Draw>>,
    draw: Option<Draw>,
)
    requires
        came_out(queue, log),
        may_give(queue, log, draw),
    ensures
        came_out(queue, log.push(draw)),
{
    let grown = log.push(draw);
    assert forall|i: int, j: int|
        0 <= i < j < grown.len() && #[trigger] grown[i] is Some && #[trigger] grown[j] is Some
        implies grown[i]->0.place < grown[j]->0.place by {
        assert(grown[i] == log[i]);
    }
}

/// What goes into a queue next, at one end, keeps the order there.
pub proof fn lemma_next_offer_is_in_order(queue: Queue<Request>, log: Seq<Offer>, offer: Offer)
    requires
        went_in(queue, log),
        may_take(queue, log, offer),
    ensures
        went_in(queue, log.push(offer)),
{
    let grown = log.push(offer);
    assert forall|i: int, j: int|
        0 <= i < j < grown.len() && (#[trigger] grown[i]).place is Some && (
        #[trigger] grown[j]).place is Some implies grown[i].place->0 < grown[j].place->0 by {
        assert(grown[i] == log[i]);
    }
}

/// A queue keeps the order: of two requests that went in at one end and came out at
/// one end, the one that was offered first comes out first. What comes out is what
/// went in at that place, and nothing comes out at one end twice.
pub proof fn lemma_order_is_kept(
    entrance: Queue<Request>,
    exit: Queue<Request>,
    offers: Seq<Offer>,
    draws: Seq<Option<Draw>>,
    a: int,
    b: int,
    i: int,
    j: int,
)
    requires
        passage(entrance) == passage(exit),
        went_in(entrance, offers),
        came_out(exit, draws),
        0 <= a < offers.len(),
        0 <= b < offers.len(),
        0 <= i < draws.len(),
        0 <= j < draws.len(),
        draws[i] is Some && offers[a].place == Some(draws[i]->0.place),
        draws[j] is Some && offers[b].place == Some(draws[j]->0.place),
    ensures
        a < b <==> i < j,
        a == b <==> i == j,
        draws[i]->0.request == offers[a].request,
        draws[j]->0.request == offers[b].request,
{
    assert(passage(entrance).contains_pair(offers[a].place->0, offers[a].request));
    assert(passage(entrance).contains_pair(offers[b].place->0, offers[b].request));
}

} // verus!
