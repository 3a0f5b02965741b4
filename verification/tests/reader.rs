use rpc_replay::reader::{Action, Input, Reader};
use rpc_replay::request::Request;
use rpc_replay::tally::Tally;
use rpc_replay::work::{new_queue, WORK_ROOM};

fn get(key: &str) -> Request {
    Request::Get { key: key.to_string() }
}

#[test]
fn a_trace_is_paced() {
    let work = new_queue();
    let mut reader = Reader::new(work.clone());
    // the first time starts the replay
    assert_eq!(reader.advance(Input::Record(100)), Action::Look);
    assert_eq!(reader.advance(Input::Time(50)), Action::Fetch(false));
    assert_eq!(reader.advance(Input::Work(Some(get("a")))), Action::Read);
    // the same time is due at once
    assert_eq!(reader.advance(Input::Record(100)), Action::Fetch(false));
    assert_eq!(reader.advance(Input::Work(None)), Action::Read);
    // a later time is put off
    assert_eq!(reader.advance(Input::Record(103)), Action::Pause(3));
    assert_eq!(reader.advance(Input::Paused { pause: 300, now: 60 }), Action::Wait);
    assert_eq!(reader.advance(Input::Time(299)), Action::Wait);
    assert_eq!(work.pop(), Some(get("a")));
    assert_eq!(work.pop(), None);
    assert_eq!(reader.advance(Input::Time(300)), Action::Fetch(false));
    assert_eq!(reader.advance(Input::Work(Some(get("b")))), Action::Read);
    // an earlier time is due at once
    assert_eq!(reader.advance(Input::Record(7)), Action::Fetch(false));
    assert_eq!(reader.advance(Input::Work(Some(get("c")))), Action::Read);
    assert_eq!(reader.tally(), Tally { sent: 3, skip: 1 });
    assert_eq!(work.pop(), Some(get("b")));
    assert_eq!(work.pop(), Some(get("c")));
}

#[test]
fn a_replay_may_fall_behind() {
    let mut reader = Reader::new(new_queue());
    assert_eq!(reader.advance(Input::Record(1)), Action::Look);
    assert_eq!(reader.advance(Input::Time(0)), Action::Fetch(false));
    assert_eq!(reader.advance(Input::Work(None)), Action::Read);
    assert_eq!(reader.advance(Input::Record(2)), Action::Pause(1));
    assert_eq!(reader.advance(Input::Paused { pause: 10, now: 11 }), Action::Fetch(true));
    assert_eq!(reader.advance(Input::Work(None)), Action::Read);
    // on time is not late, and what is due moves on from what was due
    assert_eq!(reader.advance(Input::Record(3)), Action::Pause(1));
    assert_eq!(reader.advance(Input::Paused { pause: 10, now: 20 }), Action::Fetch(false));
}

#[test]
fn a_record_without_a_time_is_due_at_once() {
    let mut reader = Reader::new(new_queue());
    assert_eq!(reader.advance(Input::Record(0)), Action::Fetch(false));
    assert_eq!(reader.advance(Input::Work(None)), Action::Read);
    assert_eq!(reader.advance(Input::Record(9)), Action::Look);
}

#[test]
fn a_request_is_tried_until_there_is_room() {
    let work = new_queue();
    for _ in 0..WORK_ROOM {
        assert!(work.push(get("")).is_ok());
    }
    let mut reader = Reader::new(work.clone());
    assert_eq!(reader.advance(Input::Record(0)), Action::Fetch(false));
    assert_eq!(reader.advance(Input::Work(Some(get("late")))), Action::Retry);
    assert_eq!(reader.advance(Input::Again), Action::Retry);
    assert_eq!(reader.tally(), Tally { sent: 0, skip: 0 });
    assert_eq!(work.pop(), Some(get("")));
    assert_eq!(reader.advance(Input::Again), Action::Read);
    assert_eq!(reader.tally(), Tally { sent: 1, skip: 0 });
    let mut last = None;
    while let Some(request) = work.pop() {
        last = Some(request);
    }
    assert_eq!(last, Some(get("late")));
}

#[test]
fn pauses_of_a_reader_have_an_end() {
    let mut reader = Reader::new(new_queue());
    assert!(reader.can_pause(u128::MAX));
    assert_eq!(reader.advance(Input::Record(1)), Action::Look);
    assert_eq!(reader.advance(Input::Time(0)), Action::Fetch(false));
    assert_eq!(reader.advance(Input::Work(None)), Action::Read);
    assert_eq!(reader.advance(Input::Record(2)), Action::Pause(1));
    assert_eq!(reader.advance(Input::Paused { pause: 5, now: 9 }), Action::Fetch(true));
    assert!(!reader.can_pause(u128::MAX));
    assert!(reader.can_pause(u128::MAX - 5));
}
