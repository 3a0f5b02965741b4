//! What is to be done about an event that was polled of a session: one step
//! after the other, each decided from what came of the one before.

use crate::pool::Token;
use crate::worker::Dispatch;
use vstd::prelude::*;

verus! {

/// What a poll reported of a session.
#[derive(Clone, Copy, Debug, PartialEq, Eq, Structural)]
pub struct Event {
    /// The session.
    pub token: Token,
    /// Something went wrong with it.
    pub error: bool,
    /// It may be read.
    pub readable: bool,
    /// It may be written.
    pub writable: bool,
}

/// Why a session is closed.
#[derive(Clone, Copy, Debug, PartialEq, Eq, Structural)]
pub enum Cause {
    /// The event reported an error.
    ErrorEvent,
    /// The handshake failed.
    HandshakeFailed,
    /// The server closed the connection.
    Hangup,
    /// The server sent what is no response.
    ParseFailed,
    /// The connection could not be read.
    ReadFailed,
}

/// What came of a handshake.
#[derive(Clone, Copy, Debug, PartialEq, Eq, Structural)]
pub enum Handshake {
    /// It went well.
    Complete,
    /// It has to wait.
    WouldBlock,
    /// It failed.
    Failed,
}

/// What is to be done next about an event. Each step is answered with a reply, and
/// `Worker::advance` tells the step that follows.
#[derive(Clone, Copy, Debug, PartialEq, Eq, Structural)]
pub enum Step {
    /// Deregister and close the session.
    Close(Cause),
    /// Find out whether the session is handshaking.
    CheckHandshake,
    /// Go on with the handshake.
    Shake,
    /// Find out whether the session is still handshaking.
    RecheckHandshake,
    /// Read the session.
    Read,
    /// A response has come in. Where the session was given another request,
    /// flush it, whether that goes well or not.
    Responded(Dispatch),
    /// Flush the session, which has to go well.
    Flush,
    /// Register the session anew.
    Reregister,
    /// Nothing. The event is over.
    Done,
}

/// What came of a step.
#[derive(Clone, Copy, Debug, PartialEq, Eq)]
pub enum Reply {
    /// It was done.
    Done,
    /// Whether the session is handshaking.
    Handshaking(bool),
    /// What came of the handshake.
    Shaken(Handshake),
    /// How many bytes were read, none at all where there is nothing to read yet.
    Received(Result<Option<usize>, ()>),
    /// How many bytes the flush left unwritten.
    Flushed(usize),
}

/// Whether a reply is one to a step.
pub open spec fn answers(step: Step, reply: Reply) -> bool {
    match step {
        Step::CheckHandshake | Step::RecheckHandshake => reply is Handshaking,
        Step::Shake => reply is Shaken,
        Step::Read => reply is Received,
        Step::Responded(Dispatch::Sent(_)) | Step::Flush => reply is Flushed,
        _ => reply is Done,
    }
}

/// The first step: a session with an error is closed before anything else.
pub open spec fn opening(event: Event) -> Step {
    if event.error {
        Step::Close(Cause::ErrorEvent)
    } else {
        Step::CheckHandshake
    }
}

/// The step that writes: a session that may be written and has something to
/// write is flushed.
pub open spec fn writing(event: Event, pending: Seq<u8>) -> Step {
    if event.writable && pending.len() > 0 {
        Step::Flush
    } else {
        Step::Done
    }
}

/// The step that reads, where the session may be read, or else the one that
/// writes.
pub open spec fn reading(event: Event, pending: Seq<u8>) -> Step {
    if event.readable {
        Step::Read
    } else {
        writing(event, pending)
    }
}

/// The step after a session was closed: where that was found early the handshake
/// is looked at next, and where it was found in reading, the writing.
pub open spec fn closed(event: Event, cause: Cause, pending: Seq<u8>) -> Step {
    match cause {
        Cause::ErrorEvent => Step::CheckHandshake,
        Cause::HandshakeFailed => Step::RecheckHandshake,
        Cause::Hangup | Cause::ParseFailed | Cause::ReadFailed => writing(event, pending),
    }
}

/// The step after it was found out whether the session is handshaking.
pub open spec fn checked(event: Event, handshaking: bool, pending: Seq<u8>) -> Step {
    if handshaking {
        Step::Shake
    } else {
        reading(event, pending)
    }
}

/// The step after a handshake.
pub open spec fn shaken(outcome: Handshake) -> Step {
    if outcome == Handshake::Failed {
        Step::Close(Cause::HandshakeFailed)
    } else {
        Step::RecheckHandshake
    }
}

/// The step after it was found out whether the session is still handshaking: as
/// long as it is, nothing is read or written.
pub open spec fn rechecked(event: Event, handshaking: bool, pending: Seq<u8>) -> Step {
    if handshaking {
        Step::Reregister
    } else {
        reading(event, pending)
    }
}

/// The step after a flush that left `pending` bytes unwritten.
pub open spec fn flushed(pending: nat) -> Step {
    if pending > 0 {
        Step::Reregister
    } else {
        Step::Done
    }
}

/// The step that follows `step`, in all cases but that of a session that was
/// read. `pending` is what the session has to write.
pub open spec fn following(event: Event, step: Step, reply: Reply, pending: Seq<u8>) -> Step {
    match (step, reply) {
        (Step::Close(cause), Reply::Done) => closed(event, cause, pending),
        (Step::CheckHandshake, Reply::Handshaking(b)) => checked(event, b, pending),
        (Step::Shake, Reply::Shaken(outcome)) => shaken(outcome),
        (Step::RecheckHandshake, Reply::Handshaking(b)) => rechecked(event, b, pending),
        (Step::Responded(_), Reply::Flushed(left)) => flushed(left as nat),
        (Step::Flush, Reply::Flushed(left)) => flushed(left as nat),
        _ => Step::Done,
    }
}

/// The first step about an event.
pub fn on_event(event: Event) -> (r: Step)
    ensures
        r == opening(event),
{
    if event.error {
        Step::Close(Cause::ErrorEvent)
    } else {
        Step::CheckHandshake
    }
}

/// The step after a handshake.
pub(crate) fn after_handshake(outcome: Handshake) -> (r: Step)
    ensures
        r == shaken(outcome),
{
    match outcome {
        Handshake::Failed => Step::Close(Cause::HandshakeFailed),
        _ => Step::RecheckHandshake,
    }
}

/// The step after a flush that left `pending` bytes unwritten.
pub fn after_flush(pending: usize) -> (r: Step)
    ensures
        r == flushed(pending as nat),
{
    if pending > 0 {
        Step::Reregister
    } else {
        Step::Done
    }
}

/// How far a step is from the end of an event.
pub open spec fn distance(step: Step) -> nat {
    match step {
        Step::Close(Cause::ErrorEvent) => 9,
        Step::CheckHandshake => 8,
        Step::Shake => 7,
        Step::Close(Cause::HandshakeFailed) => 6,
        Step::RecheckHandshake => 5,
        Step::Read => 4,
        Step::Close(_) => 3,
        Step::Responded(_) => 2,
        Step::Flush => 2,
        Step::Reregister => 1,
        Step::Done => 0,
    }
}

/// Every event comes to an end: whatever comes of a step, the next is nearer to
/// the end. A session that was read is dealt with by `Worker::advance`, which
/// promises the same.
pub proof fn lemma_every_event_ends(event: Event, step: Step, reply: Reply, pending: Seq<u8>)
    requires
        answers(step, reply),
        step !is Read,
    ensures
        distance(opening(event)) <= 9,
        step != Step::Done ==> distance(following(event, step, reply, pending)) < distance(step),
        distance(step) == 0 <==> step == Step::Done,
{
}

/// A session that is handshaking is left alone: whatever an event reports, and
/// whatever comes of the handshake, the session is neither read nor written as
/// long as it is handshaking.
pub proof fn lemma_handshake_comes_first(event: Event, outcome: Handshake, pending: Seq<u8>)
    ensures
        opening(event) == Step::CheckHandshake || opening(event) == Step::Close(Cause::ErrorEvent),
        closed(event, Cause::ErrorEvent, pending) == Step::CheckHandshake,
        checked(event, true, pending) == Step::Shake,
        shaken(outcome) == Step::RecheckHandshake || shaken(outcome) == Step::Close(
            Cause::HandshakeFailed,
        ),
        closed(event, Cause::HandshakeFailed, pending) == Step::RecheckHandshake,
        rechecked(event, true, pending) == Step::Reregister,
{
}

} // verus!
