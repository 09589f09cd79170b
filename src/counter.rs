//! The count of relays that are running: one more when a client is accepted,
//! one fewer when its relay ends, never below zero.
use vstd::prelude::*;

verus! {

/// The number of client connections whose relay has begun and not yet ended.
pub struct ActiveConnections {
    count: u64,
}

/// The count after one relay begins (`true`) or ends (`false`). It stops at
/// zero and at `u64::MAX` rather than wrap.
pub open spec fn count_after(c: nat, begins: bool) -> nat {
    if begins {
        if c < u64::MAX {
            c + 1
        } else {
            c
        }
    } else if c > 0 {
        (c - 1) as nat
    } else {
        0
    }
}

/// The count after a run of beginnings and endings, in order.
pub open spec fn count_after_all(c: nat, events: Seq<bool>) -> nat
    decreases events.len(),
{
    if events.len() == 0 {
        c
    } else {
        count_after(count_after_all(c, events.drop_last()), events.last())
    }
}

pub open spec fn begins_in(events: Seq<bool>) -> nat
    decreases events.len(),
{
    if events.len() == 0 {
        0
    } else {
        begins_in(events.drop_last()) + if events.last() {
            1nat
        } else {
            0nat
        }
    }
}

pub open spec fn ends_in(events: Seq<bool>) -> nat
    decreases events.len(),
{
    if events.len() == 0 {
        0
    } else {
        ends_in(events.drop_last()) + if events.last() {
            0nat
        } else {
            1nat
        }
    }
}

/// Every relay ends after it began: no prefix holds more endings than
/// beginnings.
pub open spec fn well_nested(events: Seq<bool>) -> bool {
    forall|i: int| 0 <= i <= events.len() ==> ends_in(#[trigger] events.take(i)) <= begins_in(events.take(i))
}

impl View for ActiveConnections {
    type V = nat;

    closed spec fn view(&self) -> nat {
        self.count as nat
    }
}

impl ActiveConnections {
    pub fn new() -> (r: ActiveConnections)
        ensures
            r@ == 0,
    {
        ActiveConnections { count: 0 }
    }

    /// The number of relays running.
    pub fn count(&self) -> (r: u64)
        ensures
            r as nat == self@,
    {
        self.count
    }

    /// A relay begins.
    pub fn enter(&mut self)
        ensures
            final(self)@ == count_after(old(self)@, true),
    {
        if self.count < u64::MAX {
            self.count = self.count + 1;
        }
    }

    /// A relay ends.
    pub fn leave(&mut self)
        ensures
            final(self)@ == count_after(old(self)@, false),
    {
        if self.count > 0 {
            self.count = self.count - 1;
        }
    }
}

/// Along well-nested beginnings and endings the count is the starting count
/// plus the beginnings less the endings, so it never drops below the start.
pub proof fn lemma_count_tracks_relays(c: nat, events: Seq<bool>)
    requires
        well_nested(events),
        c + begins_in(events) <= u64::MAX,
    ensures
        count_after_all(c, events) == c + begins_in(events) - ends_in(events),
        count_after_all(c, events) >= c,
    decreases events.len(),
{
    if events.len() > 0 {
        let prev = events.drop_last();
        assert forall|i: int| 0 <= i <= prev.len() implies ends_in(#[trigger] prev.take(i)) <= begins_in(
            prev.take(i),
        ) by {
            assert(prev.take(i) =~= events.take(i));
        }
        assert(events.take(events.len() as int) =~= events);
        lemma_count_tracks_relays(c, prev);
    }
}

/// When every relay that began has ended, the count is back where it started.
pub proof fn lemma_count_returns(c: nat, events: Seq<bool>)
    requires
        well_nested(events),
        begins_in(events) == ends_in(events),
        c + begins_in(events) <= u64::MAX,
    ensures
        count_after_all(c, events) == c,
{
    lemma_count_tracks_relays(c, events);
}

} // verus!
