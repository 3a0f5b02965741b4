//! What the reader and the workers promise to do, told by what they are told and what
//! they do then.

use crate::buffer::buffered;
use crate::event::{following, opening, Cause, Event, Handshake, Reply, Step};
use crate::history::{outstanding, places, requests, sends};
use crate::pool::{Session, SessionView, Token};
use crate::protocol::lemma_line_end;
use crate::queue::{drawn_request, may_give, Draw, Offer};
use crate::reader;
use crate::reader::{Action, Input, ReaderView};
use crate::request::{command, wire, Request, RequestView, Verb};
use crate::response::{response, Response};
use crate::tally::{settled, wanted, Tally};
use crate::values::first;
use crate::work::{accepted, offered};
use crate::worker;
use crate::worker::{continued, dispatched, fits, fresh, sent, Deed, Dispatch, WorkerView};
use bytes::BytesMut;
use mpmc::Queue;
use vstd::prelude::*;
use vstd::utf8::encode_utf8;

verus! {

/// A reader starts with nothing read, nothing offered and nothing counted, and what
/// comes first is due at once.
pub proof fn lemma_a_reader_starts_with_nothing(queue: Queue<Request>)
    ensures
        ({
            let start = reader::opened(queue);
            &&& start.action == Action::Read
            &&& start.pacer.reached == 0 && start.pacer.due == 0 && start.now == 0
            &&& start.held is None
            &&& start.tally.sent == 0 && start.tally.skip == 0
            &&& start.queue == queue
            &&& start.offers.len() == 0 && start.times.len() == 0 && start.fetched.len() == 0
        }),
{
}

/// A record that is read moves the replay on to its time, if that is later, and puts it
/// off by just the seconds that lie between. A time that was reached already is due as
/// it is, and the first time of all starts the replay.
pub proof fn lemma_a_record_moves_the_replay_on(reader: ReaderView, ts: u64, next: ReaderView)
    requires
        reader::went_on(reader, Input::Record(ts), next),
        reader.pacer.reached <= u64::MAX,
    ensures
        ts <= reader.pacer.reached ==> next.action == Action::Fetch(false) && next.pacer.reached
            == reader.pacer.reached,
        ts > reader.pacer.reached ==> next.pacer.reached == ts,
        ts > reader.pacer.reached && reader.pacer.reached == 0 ==> next.action == Action::Look,
        ts > reader.pacer.reached && reader.pacer.reached > 0 ==> (next.action matches Action::Pause(
            secs,
        ) && reader.pacer.reached + secs == ts),
        next.times.len() == reader.times.len() + 1,
        next.times.drop_last() == reader.times,
        next.times.last() == ts,
        next.pacer.due == reader.pacer.due,
        next.now == reader.now,
        next.held == reader.held,
        next.tally == reader.tally,
        next.queue == reader.queue,
        next.offers == reader.offers,
        next.fetched == reader.fetched,
{
    assert(next.times.drop_last() =~= reader.times);
}

/// A pause puts off what is read now by all of it, however long it is. The reader waits
/// exactly as long as the time is before that, and the record is late exactly if the
/// time is behind it.
pub proof fn lemma_a_pause_is_kept_whole(
    reader: ReaderView,
    pause: u128,
    now: u128,
    next: ReaderView,
)
    requires
        reader::went_on(reader, Input::Paused { pause, now }, next),
    ensures
        next.pacer.due == reader.pacer.due + pause,
        next.now == now,
        next.action == Action::Wait <==> now < reader.pacer.due + pause,
        next.action == Action::Fetch(false) <==> now == reader.pacer.due + pause,
        next.action == Action::Fetch(true) <==> now > reader.pacer.due + pause,
        next.pacer.reached == reader.pacer.reached,
        next.held == reader.held,
        next.tally == reader.tally,
        next.queue == reader.queue,
        next.offers == reader.offers,
        next.times == reader.times,
        next.fetched == reader.fetched,
{
}

/// A record is held back exactly as long as the time is before that at which it is due,
/// and then asked what it wants. Waiting moves nothing else.
pub proof fn lemma_a_record_is_held_back_until_it_is_due(
    reader: ReaderView,
    now: u128,
    next: ReaderView,
)
    requires
        reader::went_on(reader, Input::Time(now), next),
    ensures
        next.action == Action::Wait <==> now < reader.pacer.due,
        next.action == Action::Fetch(false) <==> now >= reader.pacer.due,
        next.now == now,
        next.pacer == reader.pacer,
        next.held == reader.held,
        next.tally == reader.tally,
        next.queue == reader.queue,
        next.offers == reader.offers,
        next.times == reader.times,
        next.fetched == reader.fetched,
{
}

/// The request that a record asks for is the one that is offered, whatever it is, once
/// and as it is. Where there is room it is counted as sent and the next record is read;
/// where there is none it is held, as it is, and nothing is counted.
pub proof fn lemma_the_request_of_a_record_is_offered(
    reader: ReaderView,
    request: Request,
    next: ReaderView,
)
    requires
        reader::went_on(reader, Input::Work(Some(request)), next),
        reader.tally.sent < usize::MAX,
        reader.held is None,
    ensures
        next.fetched.len() == reader.fetched.len() + 1,
        next.fetched.drop_last() == reader.fetched,
        next.fetched.last() == Some(request@),
        next.offers.len() == reader.offers.len() + 1,
        next.offers.drop_last() == reader.offers,
        next.offers.last().request == request@,
        next.offers.last().place is Some ==> {
            &&& next.action == Action::Read
            &&& next.held is None
            &&& next.tally.sent == reader.tally.sent + 1
        },
        next.offers.last().place is None ==> {
            &&& next.action == Action::Retry
            &&& next.held == Some(request@)
            &&& next.tally.sent == reader.tally.sent
        },
        next.tally.skip == reader.tally.skip,
        next.pacer == reader.pacer,
        next.now == reader.now,
        next.queue == reader.queue,
        next.times == reader.times,
{
    assert(next.fetched.drop_last() =~= reader.fetched);
    assert(next.offers.drop_last() =~= reader.offers);
}

/// No request is turned into another on its way into the queue: what is offered for a
/// request of each verb has that verb, that key and those numbers.
pub proof fn lemma_no_request_is_turned_into_another(
    reader: ReaderView,
    key: String,
    vlen: usize,
    ttl: u32,
    next: ReaderView,
)
    ensures
        reader::went_on(reader, Input::Work(Some(Request::Get { key })), next)
            ==> next.offers.last().request.verb == Verb::Get && next.offers.last().request.key
            == key@,
        reader::went_on(reader, Input::Work(Some(Request::Gets { key })), next)
            ==> next.offers.last().request.verb == Verb::Gets && next.offers.last().request.key
            == key@,
        reader::went_on(reader, Input::Work(Some(Request::Delete { key })), next)
            ==> next.offers.last().request.verb == Verb::Delete && next.offers.last().request.key
            == key@,
        reader::went_on(reader, Input::Work(Some(Request::Put { key, vlen, ttl })), next)
            ==> next.offers.last().request == (RequestView {
            verb: Verb::Put,
            key: key@,
            vlen: vlen as nat,
            ttl: ttl as nat,
        }),
        reader::went_on(reader, Input::Work(Some(Request::Add { key, vlen, ttl })), next)
            ==> next.offers.last().request == (RequestView {
            verb: Verb::Add,
            key: key@,
            vlen: vlen as nat,
            ttl: ttl as nat,
        }),
        reader::went_on(reader, Input::Work(Some(Request::Replace { key, vlen, ttl })), next)
            ==> next.offers.last().request == (RequestView {
            verb: Verb::Replace,
            key: key@,
            vlen: vlen as nat,
            ttl: ttl as nat,
        }),
{
}

/// A record that asks for nothing is counted as skipped, and nothing is offered for it.
pub proof fn lemma_a_record_without_a_request_is_skipped(reader: ReaderView, next: ReaderView)
    requires
        reader::went_on(reader, Input::Work(None), next),
        reader.tally.skip < usize::MAX,
    ensures
        next.action == Action::Read,
        next.tally.skip == reader.tally.skip + 1,
        next.tally.sent == reader.tally.sent,
        next.fetched.len() == reader.fetched.len() + 1,
        next.fetched.drop_last() == reader.fetched,
        next.fetched.last() is None,
        next.offers == reader.offers,
        next.held == reader.held,
        next.pacer == reader.pacer,
        next.now == reader.now,
        next.queue == reader.queue,
        next.times == reader.times,
{
    assert(next.fetched.drop_last() =~= reader.fetched);
}

/// A request that found no room is offered again as it is, until there is.
pub proof fn lemma_a_held_request_is_offered_again(
    reader: ReaderView,
    request: RequestView,
    next: ReaderView,
)
    requires
        reader::went_on(reader, Input::Again, next),
        reader.held == Some(request),
        reader.tally.sent < usize::MAX,
    ensures
        next.offers.len() == reader.offers.len() + 1,
        next.offers.drop_last() == reader.offers,
        next.offers.last().request == request,
        next.offers.last().place is Some ==> {
            &&& next.action == Action::Read
            &&& next.held is None
            &&& next.tally.sent == reader.tally.sent + 1
        },
        next.offers.last().place is None ==> {
            &&& next.action == Action::Retry
            &&& next.held == Some(request)
            &&& next.tally.sent == reader.tally.sent
        },
        next.tally.skip == reader.tally.skip,
        next.fetched == reader.fetched,
        next.pacer == reader.pacer,
        next.now == reader.now,
        next.queue == reader.queue,
        next.times == reader.times,
{
    assert(next.offers.drop_last() =~= reader.offers);
}

/// An offer is of the request that is handed over, and leaves those before it alone.
pub proof fn lemma_an_offer_is_of_the_request(
    queue: Queue<Request>,
    before: Seq<Offer>,
    log: Seq<Offer>,
    request: RequestView,
    room: bool,
)
    requires
        offered(queue, before, log, request, room),
    ensures
        log.len() == before.len() + 1,
        log.drop_last() == before,
        log.last().request == request,
        log.last().place is Some <==> room,
{
    assert(log.drop_last() =~= before);
}

/// A tally counts one record at a time.
pub proof fn lemma_a_tally_counts_one_by_one(tally: Tally)
    ensures
        tally.sent < usize::MAX ==> settled(tally, true).sent == tally.sent + 1 && settled(
            tally,
            true,
        ).skip == tally.skip,
        tally.skip < usize::MAX ==> settled(tally, false).skip == tally.skip + 1 && settled(
            tally,
            false,
        ).sent == tally.sent,
{
}

/// What is logged is told entry by entry, and nothing in a log is passed over.
pub proof fn lemma_logs_are_told_entry_by_entry(
    offers: Seq<Offer>,
    offer: Offer,
    records: Seq<Option<RequestView>>,
    record: Option<RequestView>,
    drawn: Seq<Option<Draw>>,
    draw: Option<Draw>,
    deeds: Seq<Deed>,
    to: usize,
    request: RequestView,
    ready: Seq<usize>,
    token: usize,
)
    ensures
        accepted(offers.push(offer)) == accepted(offers) + if offer.place is Some {
            seq![offer.request]
        } else {
            seq![]
        },
        wanted(records.push(record)) == wanted(records) + match record {
            Some(wish) => seq![wish],
            None => seq![],
        },
        requests(drawn.push(draw)) == requests(drawn) + match draw {
            Some(draw) => seq![draw.request],
            None => seq![],
        },
        sends(deeds.push(Deed::Sent(to, request))) == sends(deeds) + seq![request],
        sends(deeds.push(Deed::Answered(to))) == sends(deeds),
        outstanding(deeds.push(Deed::Sent(to, request)), token) == outstanding(deeds, token) + (
        if to == token {
            1int
        } else {
            0
        }),
        outstanding(deeds.push(Deed::Answered(to)), token) == outstanding(deeds, token) - (if to
            == token {
            1int
        } else {
            0
        }),
        places(ready.push(to), token) == places(ready, token) + if to == token {
            1nat
        } else {
            0
        },
{
    assert(offers.push(offer).drop_last() =~= offers);
    assert(records.push(record).drop_last() =~= records);
    assert(drawn.push(draw).drop_last() =~= drawn);
    assert(deeds.push(Deed::Sent(to, request)).drop_last() =~= deeds);
    assert(deeds.push(Deed::Answered(to)).drop_last() =~= deeds);
    assert(ready.push(to).drop_last() =~= ready);
    assert(accepted(offers) + Seq::<RequestView>::empty() =~= accepted(offers));
    assert(wanted(records) + Seq::<RequestView>::empty() =~= wanted(records));
    assert(requests(drawn) + Seq::<RequestView>::empty() =~= requests(drawn));
    if offer.place is Some {
        assert(accepted(offers).push(offer.request) =~= accepted(offers) + seq![offer.request]);
    }
    if let Some(wish) = record {
        assert(wanted(records).push(wish) =~= wanted(records) + seq![wish]);
    }
    if let Some(draw) = draw {
        assert(requests(drawn).push(draw.request) =~= requests(drawn) + seq![draw.request]);
    }
    assert(sends(deeds).push(request) =~= sends(deeds) + seq![request]);
}

/// A session shows what its buffers hold.
pub proof fn lemma_a_session_shows_its_buffers(token: Token, read: BytesMut, write: BytesMut)
    ensures
        (Session { token, read_buffer: read, write_buffer: write })@ == (SessionView {
            token: token.0,
            received: buffered(read),
            pending: buffered(write),
        }),
{
}

/// An event takes its course by what it reports, what came of the step before, and
/// whether there is anything to write, however much that is.
pub proof fn lemma_an_event_takes_its_course(event: Event, pending: Seq<u8>, left: usize)
    ensures
        event.error ==> opening(event) == Step::Close(Cause::ErrorEvent),
        !event.error ==> opening(event) == Step::CheckHandshake,
        following(event, Step::Close(Cause::ErrorEvent), Reply::Done, pending)
            == Step::CheckHandshake,
        following(event, Step::CheckHandshake, Reply::Handshaking(true), pending) == Step::Shake,
        following(event, Step::Shake, Reply::Shaken(Handshake::Complete), pending)
            == Step::RecheckHandshake,
        following(event, Step::Shake, Reply::Shaken(Handshake::WouldBlock), pending)
            == Step::RecheckHandshake,
        following(event, Step::Shake, Reply::Shaken(Handshake::Failed), pending) == Step::Close(
            Cause::HandshakeFailed,
        ),
        following(event, Step::Close(Cause::HandshakeFailed), Reply::Done, pending)
            == Step::RecheckHandshake,
        following(event, Step::RecheckHandshake, Reply::Handshaking(true), pending)
            == Step::Reregister,
        event.readable ==> following(
            event,
            Step::CheckHandshake,
            Reply::Handshaking(false),
            pending,
        ) == Step::Read,
        event.readable ==> following(
            event,
            Step::RecheckHandshake,
            Reply::Handshaking(false),
            pending,
        ) == Step::Read,
        !event.readable && event.writable && pending.len() > 0 ==> following(
            event,
            Step::CheckHandshake,
            Reply::Handshaking(false),
            pending,
        ) == Step::Flush && following(
            event,
            Step::RecheckHandshake,
            Reply::Handshaking(false),
            pending,
        ) == Step::Flush,
        !event.readable && !(event.writable && pending.len() > 0) ==> following(
            event,
            Step::CheckHandshake,
            Reply::Handshaking(false),
            pending,
        ) == Step::Done && following(
            event,
            Step::RecheckHandshake,
            Reply::Handshaking(false),
            pending,
        ) == Step::Done,
        forall|cause: Cause|
            cause is Hangup || cause is ParseFailed || cause is ReadFailed ==> {
                &&& event.writable && pending.len() > 0 ==> #[trigger] following(
                    event,
                    Step::Close(cause),
                    Reply::Done,
                    pending,
                ) == Step::Flush
                &&& !(event.writable && pending.len() > 0) ==> following(
                    event,
                    Step::Close(cause),
                    Reply::Done,
                    pending,
                ) == Step::Done
            },
        left > 0 ==> following(event, Step::Flush, Reply::Flushed(left), pending)
            == Step::Reregister,
        left == 0 ==> following(event, Step::Flush, Reply::Flushed(left), pending) == Step::Done,
        forall|dispatch: Dispatch|
            {
                &&& left > 0 ==> #[trigger] following(
                    event,
                    Step::Responded(dispatch),
                    Reply::Flushed(left),
                    pending,
                ) == Step::Reregister
                &&& left == 0 ==> following(
                    event,
                    Step::Responded(dispatch),
                    Reply::Flushed(left),
                    pending,
                ) == Step::Done
            },
        forall|dispatch: Dispatch| #[trigger]
            following(event, Step::Responded(dispatch), Reply::Done, pending) == Step::Done,
        following(event, Step::Reregister, Reply::Done, pending) == Step::Done,
{
}

/// A worker starts with as many sessions as it was asked for, each with empty buffers,
/// which wait for a request in the order of their tokens, and with nothing drawn, done
/// or counted.
pub proof fn lemma_a_worker_starts_with_its_pool(poolsize: nat, work: Queue<Request>, k: usize)
    requires
        poolsize <= usize::MAX,
    ensures
        ({
            let start = fresh(poolsize, work);
            &&& start.sessions.dom().contains(k) <==> k < poolsize
            &&& k < poolsize ==> {
                &&& start.sessions[k].token == k
                &&& start.sessions[k].received.len() == 0
                &&& start.sessions[k].pending.len() == 0
                &&& start.ready[k as int] == k
            }
            &&& start.ready.len() == poolsize
            &&& start.work == work
            &&& start.drawn.len() == 0
            &&& start.deeds.len() == 0
            &&& start.metrics.request == 0 && start.metrics.request_get == 0
            &&& start.metrics.response == 0 && start.metrics.response_hit == 0
        }),
{
}

/// A session can take a request exactly if what it has to write then can be allocated.
pub proof fn lemma_a_request_fits_by_its_bytes(
    worker: WorkerView,
    token: usize,
    request: RequestView,
    value: Seq<u8>,
)
    requires
        value.len() == request.vlen,
    ensures
        fits(worker, token, request) <==> worker.sessions[token].pending.len() + wire(
            request,
            value,
        ).len() <= isize::MAX,
{
}

/// A request that is sent joins what its session has to write, at the end and whole,
/// with the next characters for its value. It is counted, and counted as a read if it
/// reads. Nothing else changes.
pub proof fn lemma_a_request_is_sent_whole(
    worker: WorkerView,
    token: usize,
    request: RequestView,
    other: usize,
    i: nat,
)
    requires
        other != token,
    ensures
        ({
            let next = sent(worker, token, request);
            let value = first(worker.values, request.vlen);
            let line = encode_utf8(command(request));
            &&& request.verb is Put || request.verb is Add || request.verb is Replace
                ==> next.sessions[token].pending == worker.sessions[token].pending + (line + value
                + seq![0x0Du8, 0x0A])
            &&& request.verb is Get || request.verb is Gets || request.verb is Delete
                ==> next.sessions[token].pending == worker.sessions[token].pending + line
            &&& next.sessions[token].received == worker.sessions[token].received
            &&& next.sessions[token].token == worker.sessions[token].token
            &&& next.sessions.dom().contains(other) <==> worker.sessions.dom().contains(other)
            &&& next.sessions[other] == worker.sessions[other]
            &&& next.sessions.dom().contains(token)
            &&& next.ready == worker.ready
            &&& next.work == worker.work
            &&& next.drawn == worker.drawn
            &&& next.deeds.len() == worker.deeds.len() + 1
            &&& next.deeds.drop_last() == worker.deeds
            &&& next.deeds.last() == Deed::Sent(token, request)
            &&& worker.values.dom().contains(i + request.vlen) ==> next.values[i] == worker.values[i
                + request.vlen]
            &&& next.metrics.request as int == (worker.metrics.request + 1)
                % 0x1_0000_0000_0000_0000
            &&& request.verb is Get || request.verb is Gets ==> next.metrics.request_get as int == (
            worker.metrics.request_get + 1) % 0x1_0000_0000_0000_0000
            &&& !(request.verb is Get || request.verb is Gets) ==> next.metrics.request_get
                == worker.metrics.request_get
            &&& next.metrics.response == worker.metrics.response
            &&& next.metrics.response_hit == worker.metrics.response_hit
        }),
{
    lemma_line_end();
    assert(sent(worker, token, request).deeds.drop_last() =~= worker.deeds);
}

/// What comes out of the queue for a session that waits is given to the one that waits
/// longest, whole. With nothing out of the queue, or with no session waiting, all stays
/// as it is, and with no session waiting the queue is not asked.
pub proof fn lemma_the_longest_waiting_session_is_served(
    before: WorkerView,
    next: WorkerView,
    dispatch: Dispatch,
)
    requires
        dispatched(before, next, dispatch),
    ensures
        before.ready.len() == 0 ==> next == before && dispatch == Dispatch::Idle,
        before.ready.len() > 0 ==> {
            let token = before.ready[0];
            let session = before.sessions[token];
            &&& next.drawn.len() == before.drawn.len() + 1
            &&& next.drawn.drop_last() == before.drawn
            &&& next.drawn.last() is None ==> {
                &&& dispatch == Dispatch::Idle
                &&& next.sessions == before.sessions
                &&& next.ready == before.ready
                &&& next.deeds == before.deeds
                &&& next.values == before.values
                &&& next.metrics == before.metrics
            }
            &&& next.drawn.last() matches Some(draw) ==> {
                let bytes = wire(draw.request, first(before.values, draw.request.vlen));
                &&& session.pending.len() + bytes.len() <= isize::MAX ==> {
                    &&& dispatch == Dispatch::Sent(Token(token))
                    &&& next.sessions[token].pending == session.pending + bytes
                    &&& next.sessions[token].received == session.received
                    &&& next.ready.len() == before.ready.len() - 1
                    &&& forall|i: int|
                        0 <= i < next.ready.len() ==> #[trigger] next.ready[i] == before.ready[i
                            + 1]
                    &&& next.deeds.len() == before.deeds.len() + 1
                    &&& next.deeds.drop_last() == before.deeds
                    &&& next.deeds.last() == Deed::Sent(token, draw.request)
                    &&& next.metrics.request as int == (before.metrics.request + 1)
                        % 0x1_0000_0000_0000_0000
                }
                &&& session.pending.len() + bytes.len() > isize::MAX ==> {
                    &&& dispatch == Dispatch::Overflow
                    &&& next.sessions == before.sessions
                    &&& next.deeds == before.deeds
                    &&& next.ready == before.ready
                }
            }
            &&& forall|k: usize|
                k != token ==> #[trigger] next.sessions[k] == before.sessions[k]
            &&& next.work == before.work
            &&& next.metrics.response == before.metrics.response
            &&& next.metrics.response_hit == before.metrics.response_hit
        },
{
    if before.ready.len() > 0 {
        assert(next.drawn.drop_last() =~= before.drawn);
        if let Some(draw) = next.drawn.last() {
            lemma_a_request_fits_by_its_bytes(
                before,
                before.ready[0],
                draw.request,
                first(before.values, draw.request.vlen),
            );
            assert(before.deeds.push(Deed::Sent(before.ready[0], draw.request)).drop_last()
                =~= before.deeds);
        }
    }
}

/// A response that has come in whole is taken, however many bytes the read brought: it
/// leaves the buffer, it is counted, and counted as a hit if it brings a value. The queue
/// is asked once, and what comes out is given to the session whole; where nothing does,
/// the session waits behind all others.
pub proof fn lemma_a_response_is_always_taken(
    before: WorkerView,
    event: Event,
    n: usize,
    answer: Response,
    next: WorkerView,
    step: Step,
)
    requires
        n > 0,
        response(before.sessions[event.token.0].received) == Some(answer),
        worker::was_read(before, event, Ok(Some(n)), next, step),
    ensures
        ({
            let token = event.token.0;
            let session = before.sessions[token];
            let heard = before.deeds.push(Deed::Answered(token));
            &&& step is Responded
            &&& next.sessions[token].received == session.received.skip(answer.len as int)
            &&& next.metrics.response as int == (before.metrics.response + 1)
                % 0x1_0000_0000_0000_0000
            &&& answer.hit ==> next.metrics.response_hit as int == (before.metrics.response_hit + 1)
                % 0x1_0000_0000_0000_0000
            &&& !answer.hit ==> next.metrics.response_hit == before.metrics.response_hit
            &&& next.drawn.len() == before.drawn.len() + 1
            &&& next.drawn.drop_last() == before.drawn
            &&& next.drawn.last() is None ==> {
                &&& step == Step::Responded(Dispatch::Idle)
                &&& next.ready == before.ready.push(token)
                &&& next.deeds == heard
                &&& next.sessions[token].pending == session.pending
                &&& next.values == before.values
                &&& next.metrics.request == before.metrics.request
            }
            &&& next.drawn.last() matches Some(draw) ==> {
                let bytes = wire(draw.request, first(before.values, draw.request.vlen));
                &&& session.pending.len() + bytes.len() <= isize::MAX ==> {
                    &&& step == Step::Responded(Dispatch::Sent(event.token))
                    &&& next.ready == before.ready
                    &&& next.deeds == heard.push(Deed::Sent(token, draw.request))
                    &&& next.sessions[token].pending == session.pending + bytes
                    &&& next.metrics.request as int == (before.metrics.request + 1)
                        % 0x1_0000_0000_0000_0000
                }
                &&& session.pending.len() + bytes.len() > isize::MAX ==> {
                    &&& step == Step::Responded(Dispatch::Overflow)
                    &&& next.ready == before.ready
                    &&& next.deeds == heard
                    &&& next.sessions[token].pending == session.pending
                }
            }
            &&& forall|k: usize|
                k != token ==> #[trigger] next.sessions[k] == before.sessions[k]
            &&& next.work == before.work
        }),
{
    let token = event.token.0;
    let mid = worker::answered(worker::decoded(before, token, answer), token);
    assert(worker::went_on(mid, token, next, step));
    let draw = choose|draw: Option<Draw>|
        {
            let (given, dispatch) = #[trigger] continued(
                worker::drew(mid, draw),
                token,
                drawn_request(draw),
            );
            &&& may_give(mid.work, mid.drawn, draw)
            &&& next == given
            &&& step == Step::Responded(dispatch)
        };
    assert(next.drawn.drop_last() =~= before.drawn);
    if let Some(draw) = draw {
        lemma_a_request_fits_by_its_bytes(
            worker::drew(mid, Some(draw)),
            token,
            draw.request,
            first(before.values, draw.request.vlen),
        );
    }
}

/// A read that brings no whole response changes nothing. More is waited for where bytes
/// have come in or may still come, and the session is closed where the server hung up or
/// the read failed.
pub proof fn lemma_a_read_without_a_response_changes_nothing(
    before: WorkerView,
    event: Event,
    result: Result<Option<usize>, ()>,
    next: WorkerView,
    step: Step,
)
    requires
        worker::was_read(before, event, result, next, step),
    ensures
        result == Ok::<Option<usize>, ()>(None) ==> step == Step::Done && next == before,
        result == Ok::<Option<usize>, ()>(Some(0)) ==> step == Step::Close(Cause::Hangup) && next
            == before,
        result is Err ==> step == Step::Close(Cause::ReadFailed) && next == before,
        result is Ok && result->Ok_0 is Some && result->Ok_0->0 > 0 && response(
            before.sessions[event.token.0].received,
        ) is None ==> step == Step::Done && next == before,
{
}

} // verus!
