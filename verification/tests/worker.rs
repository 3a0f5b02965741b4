use rpc_replay::event::{after_flush, on_event, Cause, Event, Handshake, Reply, Step};
use rpc_replay::metrics::Metrics;
use rpc_replay::pool::Token;
use rpc_replay::request::Request;
use rpc_replay::response::ParseError;
use rpc_replay::tally::Tally;
use rpc_replay::queue::Inlet;
use rpc_replay::work::{after_offer, hand_over, new_queue, offer, WORK_ROOM};
use rpc_replay::worker::{Dispatch, Worker};

fn get(key: &str) -> Request {
    Request::Get { key: key.to_string() }
}

fn put(key: &str, vlen: usize) -> Request {
    Request::Put { key: key.to_string(), vlen, ttl: 5 }
}

fn event(token: usize) -> Event {
    Event { token: Token(token), error: false, readable: true, writable: true }
}

fn pending(worker: &mut Worker, token: usize) -> String {
    String::from_utf8(worker.write_buffer(Token(token)).to_vec()).unwrap()
}

fn receive(worker: &mut Worker, token: usize, bytes: &[u8]) {
    worker.read_buffer(Token(token)).extend_from_slice(bytes);
}

#[test]
fn a_fresh_worker() {
    let mut worker = Worker::new(3, new_queue());
    for token in 0..3 {
        assert!(worker.has_session(Token(token)));
        assert!(worker.write_buffer(Token(token)).is_empty());
        assert!(worker.read_buffer(Token(token)).is_empty());
    }
    assert!(!worker.has_session(Token(3)));
    assert_eq!(worker.metrics(), Metrics::new());
    assert_eq!(worker.dispatch(), Dispatch::Idle);
}

#[test]
fn a_worker_without_sessions_takes_no_request() {
    let work = new_queue();
    let mut inlet = Inlet::new(work.clone());
    assert_eq!(offer(&mut inlet, get("a")), Ok(()));
    let mut worker = Worker::new(0, work.clone());
    assert_eq!(worker.dispatch(), Dispatch::Idle);
    assert_eq!(work.pop(), Some(get("a")));
}

#[test]
fn requests_go_to_the_sessions_in_turn() {
    let work = new_queue();
    let mut inlet = Inlet::new(work.clone());
    let mut worker = Worker::new(2, work.clone());
    for key in ["a", "b", "c"] {
        assert_eq!(offer(&mut inlet, get(key)), Ok(()));
    }
    assert_eq!(worker.dispatch(), Dispatch::Sent(Token(0)));
    assert_eq!(worker.dispatch(), Dispatch::Sent(Token(1)));
    // no session is left for the third
    assert_eq!(worker.dispatch(), Dispatch::Idle);
    assert_eq!(pending(&mut worker, 0), "get a\r\n");
    assert_eq!(pending(&mut worker, 1), "get b\r\n");
    assert_eq!(work.pop(), Some(get("c")));
}

#[test]
fn a_session_that_finds_no_request_stays_the_next() {
    let mut worker = Worker::new(2, new_queue());
    assert_eq!(worker.start(None), Dispatch::Idle);
    assert_eq!(worker.start(Some(get("a"))), Dispatch::Sent(Token(0)));
    assert_eq!(worker.start(None), Dispatch::Idle);
    assert_eq!(worker.start(Some(get("b"))), Dispatch::Sent(Token(1)));
}

#[test]
fn every_request_on_the_wire() {
    let mut worker = Worker::new(1, new_queue());
    let key = || "k".to_string();
    worker.send_request(Token(0), Request::Get { key: key() });
    worker.send_request(Token(0), Request::Gets { key: key() });
    worker.send_request(Token(0), Request::Put { key: key(), vlen: 4, ttl: 60 });
    worker.send_request(Token(0), Request::Add { key: key(), vlen: 0, ttl: 0 });
    worker.send_request(Token(0), Request::Replace { key: key(), vlen: 6, ttl: 1 });
    worker.send_request(Token(0), Request::Delete { key: key() });
    // the values are cut, one behind the other, from what the seed gives
    assert_eq!(
        pending(&mut worker, 0),
        "get k\r\ngets k\r\nset k 0 60 4\r\nUYXA\r\nadd k 0 0 0\r\n\r\nreplace k 0 1 6\r\nfB22SE\r\ndelete k\r\n"
    );
    assert_eq!(
        worker.metrics(),
        Metrics { request: 6, request_get: 2, response: 0, response_hit: 0 }
    );
}

#[test]
fn values_of_all_sessions_come_from_one_stream() {
    let stream = "UYXAfB22SEUEGGEZoHUZRICRbYIp6CQYW33NgKtLkTWDCLNKPblhyIBxufTo";
    let mut worker = Worker::new(3, new_queue());
    assert_eq!(worker.start(Some(put("a", 10))), Dispatch::Sent(Token(0)));
    assert_eq!(worker.start(Some(put("b", 20))), Dispatch::Sent(Token(1)));
    assert_eq!(worker.start(Some(put("c", 30))), Dispatch::Sent(Token(2)));
    assert_eq!(
        pending(&mut worker, 0),
        format!("set a 0 5 10\r\n{}\r\n", &stream[..10])
    );
    assert_eq!(
        pending(&mut worker, 1),
        format!("set b 0 5 20\r\n{}\r\n", &stream[10..30])
    );
    assert_eq!(
        pending(&mut worker, 2),
        format!("set c 0 5 30\r\n{}\r\n", &stream[30..])
    );
}

#[test]
fn generators_start_alike() {
    assert_eq!(rpc_replay::values::rng(), rpc_replay::values::rng());
}

#[test]
fn a_request_that_is_too_large_is_not_sent() {
    let mut worker = Worker::new(1, new_queue());
    let line = "set k 0 5 9223372036854775807\r\n".len();
    assert!(!worker.can_take(Token(0), &put("k", usize::MAX)));
    assert!(!worker.can_take(Token(0), &put("k", isize::MAX as usize - line - 1)));
    assert!(worker.can_take(Token(0), &put("k", isize::MAX as usize - line - 2)));
    assert_eq!(worker.start(Some(put("k", usize::MAX))), Dispatch::Overflow);
    assert_eq!(worker.metrics(), Metrics::new());
    assert_eq!(worker.start(Some(get("k"))), Dispatch::Sent(Token(0)));
    assert_eq!(
        worker.go_on(Token(0), Some(put("k", usize::MAX))),
        Dispatch::Overflow
    );
    assert_eq!(pending(&mut worker, 0), "get k\r\n");
}

#[test]
fn an_answered_session_gets_the_next_request() {
    let work = new_queue();
    let mut inlet = Inlet::new(work.clone());
    let mut worker = Worker::new(1, work.clone());
    assert_eq!(offer(&mut inlet, get("a")), Ok(()));
    assert_eq!(offer(&mut inlet, get("b")), Ok(()));
    assert_eq!(worker.dispatch(), Dispatch::Sent(Token(0)));
    worker.write_buffer(Token(0)).clear();
    receive(&mut worker, 0, b"VALUE a 0 1\r\nx\r\nEND\r\nmore");
    let step = worker.advance(event(0), Step::Read, Reply::Received(Ok(Some(26))));
    assert_eq!(step, Step::Responded(Dispatch::Sent(Token(0))));
    assert_eq!(pending(&mut worker, 0), "get b\r\n");
    assert_eq!(&worker.read_buffer(Token(0))[..], b"more");
    assert_eq!(
        worker.metrics(),
        Metrics { request: 2, request_get: 2, response: 1, response_hit: 1 }
    );
}

#[test]
fn an_answered_session_without_a_request_waits_last() {
    let mut worker = Worker::new(2, new_queue());
    assert_eq!(worker.start(Some(get("a"))), Dispatch::Sent(Token(0)));
    receive(&mut worker, 0, b"END\r\n");
    let step = worker.advance(event(0), Step::Read, Reply::Received(Ok(Some(5))));
    assert_eq!(step, Step::Responded(Dispatch::Idle));
    assert_eq!(worker.advance(event(0), step, Reply::Done), Step::Done);
    assert_eq!(worker.start(Some(get("b"))), Dispatch::Sent(Token(1)));
    assert_eq!(worker.start(Some(get("c"))), Dispatch::Sent(Token(0)));
    assert_eq!(worker.dispatch(), Dispatch::Idle);
    assert_eq!(
        worker.metrics(),
        Metrics { request: 3, request_get: 3, response: 1, response_hit: 0 }
    );
}

#[test]
fn reads_that_bring_no_response() {
    let mut worker = Worker::new(1, new_queue());
    let read = |worker: &mut Worker, result| {
        worker.advance(event(0), Step::Read, Reply::Received(result))
    };
    assert_eq!(read(&mut worker, Ok(None)), Step::Done);
    assert_eq!(read(&mut worker, Ok(Some(0))), Step::Close(Cause::Hangup));
    assert_eq!(read(&mut worker, Err(())), Step::Close(Cause::ReadFailed));
    receive(&mut worker, 0, b"STOR");
    assert_eq!(read(&mut worker, Ok(Some(4))), Step::Done);
    assert_eq!(&worker.read_buffer(Token(0))[..], b"STOR");
    receive(&mut worker, 0, b"ED\r\n");
    assert_eq!(
        read(&mut worker, Ok(Some(4))),
        Step::Responded(Dispatch::Idle)
    );
    assert!(worker.read_buffer(Token(0)).is_empty());
}

#[test]
fn what_is_no_response_closes_the_session() {
    let mut worker = Worker::new(1, new_queue());
    for error in [ParseError::Error, ParseError::Unknown] {
        assert_eq!(
            worker.after_decode(event(0), Err(error)),
            Step::Close(Cause::ParseFailed)
        );
    }
    assert_eq!(
        worker.after_decode(event(0), Err(ParseError::Incomplete)),
        Step::Done
    );
    assert_eq!(worker.metrics(), Metrics::new());
    assert_eq!(
        worker.after_decode(event(0), Ok(())),
        Step::Responded(Dispatch::Idle)
    );
    assert_eq!(worker.metrics().response, 1);
}

#[test]
fn an_error_closes_the_session_first() {
    let mut worker = Worker::new(1, new_queue());
    let failed = Event { error: true, ..event(0) };
    assert_eq!(on_event(failed), Step::Close(Cause::ErrorEvent));
    assert_eq!(
        worker.advance(failed, Step::Close(Cause::ErrorEvent), Reply::Done),
        Step::CheckHandshake
    );
    assert_eq!(on_event(event(0)), Step::CheckHandshake);
}

#[test]
fn steps_of_a_handshake() {
    let mut worker = Worker::new(1, new_queue());
    let e = event(0);
    let mut next = |step, reply| worker.advance(e, step, reply);
    assert_eq!(
        next(Step::CheckHandshake, Reply::Handshaking(true)),
        Step::Shake
    );
    assert_eq!(
        next(Step::CheckHandshake, Reply::Handshaking(false)),
        Step::Read
    );
    assert_eq!(
        next(Step::Shake, Reply::Shaken(Handshake::Complete)),
        Step::RecheckHandshake
    );
    assert_eq!(
        next(Step::Shake, Reply::Shaken(Handshake::WouldBlock)),
        Step::RecheckHandshake
    );
    assert_eq!(
        next(Step::Shake, Reply::Shaken(Handshake::Failed)),
        Step::Close(Cause::HandshakeFailed)
    );
    assert_eq!(
        next(Step::Close(Cause::HandshakeFailed), Reply::Done),
        Step::RecheckHandshake
    );
    assert_eq!(
        next(Step::RecheckHandshake, Reply::Handshaking(true)),
        Step::Reregister
    );
    assert_eq!(
        next(Step::RecheckHandshake, Reply::Handshaking(false)),
        Step::Read
    );
    assert_eq!(next(Step::Reregister, Reply::Done), Step::Done);
}

#[test]
fn a_session_is_flushed_where_it_may_be_and_has_something_to_write() {
    let mut worker = Worker::new(1, new_queue());
    let write = Event { readable: false, ..event(0) };
    let neither = Event { writable: false, ..write };
    let idle = Reply::Handshaking(false);
    assert_eq!(
        worker.advance(write, Step::CheckHandshake, idle),
        Step::Done
    );
    worker.send_request(Token(0), get("k"));
    assert_eq!(
        worker.advance(write, Step::CheckHandshake, idle),
        Step::Flush
    );
    assert_eq!(
        worker.advance(write, Step::RecheckHandshake, idle),
        Step::Flush
    );
    assert_eq!(
        worker.advance(neither, Step::CheckHandshake, idle),
        Step::Done
    );
    for cause in [Cause::Hangup, Cause::ParseFailed, Cause::ReadFailed] {
        assert_eq!(
            worker.advance(event(0), Step::Close(cause), Reply::Done),
            Step::Flush
        );
    }
}

#[test]
fn a_flush_that_is_not_finished_registers_anew() {
    let mut worker = Worker::new(1, new_queue());
    let sent = Step::Responded(Dispatch::Sent(Token(0)));
    for step in [sent, Step::Flush] {
        assert_eq!(
            worker.advance(event(0), step, Reply::Flushed(3)),
            Step::Reregister
        );
        assert_eq!(
            worker.advance(event(0), step, Reply::Flushed(0)),
            Step::Done
        );
    }
    assert_eq!(after_flush(1), Step::Reregister);
    assert_eq!(after_flush(0), Step::Done);
}

#[test]
fn a_full_queue_gives_the_request_back() {
    let work = new_queue();
    let mut inlet = Inlet::new(work.clone());
    for _ in 0..WORK_ROOM {
        assert_eq!(offer(&mut inlet, Request::Get { key: String::new() }), Ok(()));
    }
    assert_eq!(offer(&mut inlet, get("late")), Err(get("late")));
    assert_eq!(work.pop(), Some(Request::Get { key: String::new() }));
    assert_eq!(offer(&mut inlet, get("late")), Ok(()));
}

#[test]
fn every_record_is_counted() {
    let work = new_queue();
    let mut inlet = Inlet::new(work.clone());
    let mut tally = Tally::new();
    for request in [Some(get("a")), None, Some(put("b", 2)), None, None] {
        assert_eq!(hand_over(&mut inlet, request, &mut tally), None);
    }
    assert_eq!(tally, Tally { sent: 2, skip: 3 });
    assert_eq!(work.pop(), Some(get("a")));
    assert_eq!(work.pop(), Some(put("b", 2)));
    assert_eq!(work.pop(), None);
}

#[test]
fn a_request_that_came_back_is_not_counted() {
    let mut tally = Tally::new();
    assert_eq!(after_offer(&mut tally, Err(get("a"))), Some(get("a")));
    assert_eq!(tally, Tally { sent: 0, skip: 0 });
    assert_eq!(after_offer(&mut tally, Ok(())), None);
    assert_eq!(tally, Tally { sent: 1, skip: 0 });
}

/// Runs an event to its end, and tells the steps on the way.
fn run_event(event: Event, handshaking: bool, outcome: Handshake) -> Vec<Step> {
    let mut worker = Worker::new(1, new_queue());
    worker.send_request(Token(0), get("k"));
    let mut steps = vec![];
    let mut step = on_event(event);
    while step != Step::Done {
        steps.push(step);
        let reply = match step {
            Step::CheckHandshake | Step::RecheckHandshake => Reply::Handshaking(handshaking),
            Step::Shake => Reply::Shaken(outcome),
            Step::Read => Reply::Received(Err(())),
            Step::Flush => Reply::Flushed(2),
            _ => Reply::Done,
        };
        step = worker.advance(event, step, reply);
    }
    steps
}

#[test]
fn every_event_ends() {
    for flags in 0..8 {
        let polled = Event {
            token: Token(0),
            error: flags & 1 != 0,
            readable: flags & 2 != 0,
            writable: flags & 4 != 0,
        };
        for outcome in [Handshake::Complete, Handshake::WouldBlock, Handshake::Failed] {
            let steps = run_event(polled, true, outcome);
            assert!(steps.len() <= 9);
            // nothing is read or written during a handshake
            assert!(!steps.contains(&Step::Read) && !steps.contains(&Step::Flush));
            assert_eq!(steps.last(), Some(&Step::Reregister));
            assert!(run_event(polled, false, outcome).len() <= 9);
        }
    }
    let failed = Event { error: true, ..event(0) };
    assert_eq!(
        run_event(failed, false, Handshake::Complete),
        vec![
            Step::Close(Cause::ErrorEvent),
            Step::CheckHandshake,
            Step::Read,
            Step::Close(Cause::ReadFailed),
            Step::Flush,
            Step::Reregister,
        ]
    );
}

#[test]
fn what_goes_in_comes_out_in_its_order() {
    let work = new_queue();
    let mut inlet = Inlet::new(work.clone());
    assert_eq!(work.pop(), None);
    for i in 0..100 {
        assert_eq!(offer(&mut inlet, put("k", i)), Ok(()));
    }
    for i in 0..100 {
        assert_eq!(work.pop(), Some(put("k", i)));
    }
    assert_eq!(work.pop(), None);
}

#[test]
fn what_is_taken_is_sent() {
    let work = new_queue();
    let mut inlet = Inlet::new(work.clone());
    let mut worker = Worker::new(1, work.clone());
    let keys = ["a", "b", "c", "d"];
    for key in keys {
        assert_eq!(offer(&mut inlet, get(key)), Ok(()));
    }
    let mut written = String::new();
    assert_eq!(worker.dispatch(), Dispatch::Sent(Token(0)));
    for _ in keys {
        written.push_str(&pending(&mut worker, 0));
        worker.write_buffer(Token(0)).clear();
        receive(&mut worker, 0, b"END\r\n");
        worker.advance(event(0), Step::Read, Reply::Received(Ok(Some(5))));
    }
    assert_eq!(written, "get a\r\nget b\r\nget c\r\nget d\r\n");
    assert_eq!(worker.metrics().request, 4);
    assert_eq!(work.pop(), None);
}

#[test]
fn nothing_is_taken_where_nothing_can_be_sent() {
    let work = new_queue();
    let mut inlet = Inlet::new(work.clone());
    let mut worker = Worker::new(1, work.clone());
    assert_eq!(offer(&mut inlet, get("a")), Ok(()));
    assert_eq!(offer(&mut inlet, get("b")), Ok(()));
    assert_eq!(worker.dispatch(), Dispatch::Sent(Token(0)));
    assert_eq!(worker.dispatch(), Dispatch::Idle);
    for result in [Ok(None), Ok(Some(0)), Ok(Some(1)), Err(())] {
        worker.advance(event(0), Step::Read, Reply::Received(result));
    }
    worker.send_request(Token(0), get("c"));
    assert_eq!(work.pop(), Some(get("b")));
}

#[test]
fn a_request_is_read_back_from_the_wire() {
    let mut worker = Worker::new(1, new_queue());
    let request = Request::Replace { key: "ключ".to_string(), vlen: 200, ttl: 7 };
    worker.send_request(Token(0), request);
    let written = pending(&mut worker, 0);
    let (line, rest) = written.split_once("\r\n").unwrap();
    let words: Vec<&str> = line.split(' ').collect();
    assert_eq!(words, vec!["replace", "ключ", "0", "7", "200"]);
    let (value, end) = rest.split_at(200);
    assert!(value.bytes().all(|b| b.is_ascii_alphanumeric()));
    assert_eq!(end, "\r\n");
}

#[test]
fn workers_start_alike() {
    let mut a = Worker::new(1, new_queue());
    let mut b = Worker::new(5, new_queue());
    a.send_request(Token(0), put("x", 25));
    b.send_request(Token(3), Request::Add { key: "y".to_string(), vlen: 25, ttl: 9 });
    let (a, b) = (pending(&mut a, 0), pending(&mut b, 3));
    assert_eq!(a.lines().nth(1), b.lines().nth(1));
    assert_eq!(a.lines().nth(1).map(|value| value.len()), Some(25));
}

#[test]
fn ends_and_workers_can_move_to_threads() {
    fn movable<T: Send>(_: &T) {}
    let work = new_queue();
    movable(&Worker::new(0, work.clone()));
    movable(&Inlet::new(work));
}

#[test]
fn unsent_bytes_are_kept() {
    let mut worker = Worker::new(1, new_queue());
    worker.send_request(Token(0), get("a"));
    worker.send_request(Token(0), put("b", 3));
    let flushed = worker.write_buffer(Token(0)).split_to(10);
    assert_eq!(&flushed[..], b"get a\r\nset");
    worker.send_request(Token(0), get("c"));
    assert_eq!(pending(&mut worker, 0), " b 0 5 3\r\nUYX\r\nget c\r\n");
}
