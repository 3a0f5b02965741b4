//! How much of a trace was replayed.

use crate::request::RequestView;
use vstd::prelude::*;

verus! {

/// How much of a trace was replayed.
#[derive(Clone, Copy, Debug, PartialEq, Eq, Structural)]
pub struct Tally {
    /// Records whose request was handed to the workers.
    pub sent: usize,
    /// Records that are not replayed.
    pub skip: usize,
}

impl Tally {
    /// Nothing yet.
    pub fn new() -> (r: Tally)
        ensures
            r == (Tally { sent: 0, skip: 0 }),
    {
        Tally { sent: 0, skip: 0 }
    }

    /// Counts a record whose request was handed to the workers.
    pub fn count_sent(&mut self)
        requires
            old(self).sent < usize::MAX,
        ensures
            *final(self) == settled(*old(self), true),
    {
        self.sent = self.sent + 1;
    }

    /// Counts a record that is not replayed.
    pub fn count_skip(&mut self)
        requires
            old(self).skip < usize::MAX,
        ensures
            *final(self) == settled(*old(self), false),
    {
        self.skip = self.skip + 1;
    }
}

/// The tally after one more record: one whose request was handed to the workers,
/// or one that is not replayed.
pub open spec fn settled(tally: Tally, replayed: bool) -> Tally {
    if replayed {
        Tally { sent: (tally.sent + 1) as usize, ..tally }
    } else {
        Tally { skip: (tally.skip + 1) as usize, ..tally }
    }
}

/// The tally of a trace whose records ask for these requests, or for none.
pub open spec fn tallied(records: Seq<Option<RequestView>>) -> Tally
    decreases records.len(),
{
    if records.len() == 0 {
        Tally { sent: 0, skip: 0 }
    } else {
        settled(tallied(records.drop_last()), records.last() is Some)
    }
}

/// The requests that records ask for, in their order.
pub open spec fn wanted(records: Seq<Option<RequestView>>) -> Seq<RequestView>
    decreases records.len(),
{
    if records.len() == 0 {
        seq![]
    } else {
        match records.last() {
            Some(request) => wanted(records.drop_last()).push(request),
            None => wanted(records.drop_last()),
        }
    }
}

/// Every record of a trace is counted once, and as sent exactly if it asks for a
/// request.
pub proof fn lemma_every_record_is_counted(records: Seq<Option<RequestView>>)
    requires
        records.len() <= usize::MAX,
    ensures
        tallied(records).sent == wanted(records).len(),
        tallied(records).sent + tallied(records).skip == records.len(),
    decreases records.len(),
{
    if records.len() > 0 {
        lemma_every_record_is_counted(records.drop_last());
    }
}

} // verus!
