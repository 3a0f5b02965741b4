//! The sessions of a worker, kept in a `Slab` of the `slab` crate.

use crate::buffer::{buffered, new_buffer};
use bytes::BytesMut;
use slab::Slab;
use vstd::prelude::*;

verus! {

/// The name by which a session is polled and found again.
#[derive(Clone, Copy, Debug, PartialEq, Eq, Structural)]
pub struct Token(pub usize);

/// What the worker keeps of one connection to the server.
pub struct Session {
    /// The name of the session.
    pub token: Token,
    /// Bytes that came from the server and are not decoded yet.
    pub read_buffer: BytesMut,
    /// Bytes that are still to be written to the server.
    pub write_buffer: BytesMut,
}

/// A session as a mathematical value.
#[verifier::ext_equal]
pub struct SessionView {
    pub token: usize,
    pub received: Seq<u8>,
    pub pending: Seq<u8>,
}

impl View for Session {
    type V = SessionView;

    open spec fn view(&self) -> SessionView {
        SessionView {
            token: self.token.0,
            received: buffered(self.read_buffer),
            pending: buffered(self.write_buffer),
        }
    }
}

impl Session {
    /// A session under `token` whose buffers are empty.
    pub fn new(token: Token) -> (r: Session)
        ensures
            r@ == (SessionView { token: token.0, received: seq![], pending: seq![] }),
    {
        Session { token, read_buffer: new_buffer(), write_buffer: new_buffer() }
    }
}

/// `slab::Slab`, storage that hands out a key for each value.
#[verifier::external_type_specification]
#[verifier::external_body]
#[verifier::reject_recursive_types(T)]
pub struct ExSlab<T>(Slab<T>);

/// The sessions that a slab holds, each under its key.
pub uninterp spec fn stored(slab: Slab<Session>) -> Map<usize, Session>;

/// The keys that were given back to a slab, the one that it will hand out next
/// in front.
pub uninterp spec fn vacated(slab: Slab<Session>) -> Seq<usize>;

/// At least twice as many bytes as one slot of a `Slab<Session>` takes.
pub const SLOT_BOUND: usize = 256;

/// The key that a slab hands out next: one that was given back, or the number
/// of the slots where all are taken.
pub open spec fn next_key(slab: Slab<Session>) -> int {
    if vacated(slab).len() > 0 {
        vacated(slab)[0] as int
    } else {
        stored(slab).len() as int
    }
}

/// `Slab::with_capacity`: a slab that holds nothing and was given nothing back.
/// It panics where its slots would take more than `isize::MAX` bytes.
#[verifier::external_body]
pub(crate) fn with_capacity(capacity: usize) -> (r: Slab<Session>)
    requires
        capacity * SLOT_BOUND <= isize::MAX,
    ensures
        stored(r) =~= Map::empty(),
        vacated(r) == Seq::<usize>::empty(),
{
    Slab::with_capacity(capacity)
}

/// `Slab::get_mut`: the session under `key`, where there is one, for change in
/// place. The other sessions stay as they are, and no key is given back.
#[verifier::external_body]
pub(crate) fn get_mut(slab: &mut Slab<Session>, key: usize) -> (r: Option<&mut Session>)
    ensures
        vacated(*final(slab)) == vacated(*old(slab)),
        match r {
            Some(session) => {
                &&& stored(*old(slab)).dom().contains(key)
                &&& *session == stored(*old(slab))[key]
                &&& stored(*final(slab)) == stored(*old(slab)).insert(key, *final(session))
            },
            None => {
                &&& !stored(*old(slab)).dom().contains(key)
                &&& stored(*final(slab)) == stored(*old(slab))
            },
        },
{
    slab.get_mut(key)
}

/// `Slab::get`: the session under `key`, where there is one.
#[verifier::external_body]
pub(crate) fn get(slab: &Slab<Session>, key: usize) -> (r: Option<&Session>)
    ensures
        match r {
            Some(session) => {
                &&& stored(*slab).dom().contains(key)
                &&& *session == stored(*slab)[key]
            },
            None => !stored(*slab).dom().contains(key),
        },
{
    slab.get(key)
}

/// `Slab::vacant_key`: the key under which the next session will be stored.
#[verifier::external_body]
pub(crate) fn vacant_key(slab: &Slab<Session>) -> (r: usize)
    ensures
        r == next_key(*slab),
{
    slab.vacant_key()
}

/// `Slab::insert`: stores a session under the next key and returns that key,
/// which has then left those that were given back. It panics where its slots,
/// of which it allocates up to twice as many as it needs, would take more than
/// `isize::MAX` bytes.
#[verifier::external_body]
pub(crate) fn insert(slab: &mut Slab<Session>, session: Session) -> (r: usize)
    requires
        (stored(*old(slab)).len() + vacated(*old(slab)).len() + 1) * SLOT_BOUND <= isize::MAX,
    ensures
        r == next_key(*old(slab)),
        stored(*final(slab)) == stored(*old(slab)).insert(r, session),
        vacated(*final(slab)) == if vacated(*old(slab)).len() > 0 {
            vacated(*old(slab)).drop_first()
        } else {
            vacated(*old(slab))
        },
{
    slab.insert(session)
}

} // verus!
