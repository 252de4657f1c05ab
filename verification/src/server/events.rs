//! The server's log of recent events, holding at most
//! [`MAX_SERVER_EVENTS`] entries, oldest first.

use std::collections::VecDeque;

use vstd::prelude::*;

use super::ServerLogEntry;

verus! {

/// How many events the log keeps.
pub const MAX_SERVER_EVENTS: usize = 200;

/// The log after one more event: the new event last, the oldest dropped
/// when the log would exceed its bound.
pub open spec fn spec_after_record(
    events: Seq<ServerLogEntry>,
    entry: ServerLogEntry,
) -> Seq<ServerLogEntry> {
    let grown = events.push(entry);
    if grown.len() > MAX_SERVER_EVENTS {
        grown.skip(grown.len() - MAX_SERVER_EVENTS)
    } else {
        grown
    }
}

#[derive(Debug)]
pub struct EventLog {
    events: VecDeque<ServerLogEntry>,
}

impl View for EventLog {
    type V = Seq<ServerLogEntry>;

    closed spec fn view(&self) -> Seq<ServerLogEntry> {
        self.events@
    }
}

impl EventLog {
    #[verifier::type_invariant]
    spec fn bounded(self) -> bool {
        self.events@.len() <= MAX_SERVER_EVENTS
    }

    pub fn new() -> (log: Self)
        ensures
            log@ == Seq::<ServerLogEntry>::empty(),
    {
        EventLog { events: VecDeque::new() }
    }

    /// Appends an event, dropping the oldest ones beyond the bound.
    pub fn record(&mut self, timestamp_unix_secs: u64, message: String)
        ensures
            final(self)@ == spec_after_record(
                old(self)@,
                ServerLogEntry { timestamp_unix_secs, message },
            ),
    {
        proof {
            use_type_invariant(&*self);
        }
        let ghost start = self.events@;
        let entry = ServerLogEntry { timestamp_unix_secs, message };
        let mut events: VecDeque<ServerLogEntry> = VecDeque::new();
        std::mem::swap(&mut events, &mut self.events);
        events.push_back(entry);
        let ghost grown = events@;
        proof {
            assert(grown.skip(0) =~= grown);
        }
        while events.len() > MAX_SERVER_EVENTS
            invariant
                grown == start.push(entry),
                grown.len() <= MAX_SERVER_EVENTS + 1,
                events@.len() >= MAX_SERVER_EVENTS || events@ == grown,
                events@.len() <= grown.len(),
                events@ == grown.skip(grown.len() - events@.len()),
            decreases events@.len(),
        {
            let ghost before = events@;
            let _ = events.pop_front();
            proof {
                assert(events@ =~= before.drop_first());
                assert(grown.skip(grown.len() - events@.len()) =~= grown.skip(
                    grown.len() - before.len(),
                ).drop_first());
            }
        }
        proof {
            if grown.len() > MAX_SERVER_EVENTS {
                assert(events@.len() == MAX_SERVER_EVENTS);
            } else {
                assert(grown.skip(0) =~= grown);
            }
            assert(events@ =~= spec_after_record(start, entry));
        }
        self.events = events;
    }

    /// The events, oldest first.
    pub fn recent(&self) -> (events: Vec<ServerLogEntry>)
        ensures
            events@ == self@,
    {
        let mut out: Vec<ServerLogEntry> = Vec::new();
        let n = self.events.len();
        for i in 0..n
            invariant
                n == self.events@.len(),
                out@ =~= self.events@.take(i as int),
        {
            out.push(self.events[i].clone());
            proof {
                assert(self.events@.take(i + 1) =~= self.events@.take(i as int).push(
                    self.events@[i as int],
                ));
            }
        }
        proof {
            assert(self.events@.take(n as int) =~= self.events@);
        }
        out
    }

    /// The number of events held, never more than the bound.
    pub fn len(&self) -> (n: usize)
        ensures
            n == self@.len(),
            n <= MAX_SERVER_EVENTS,
    {
        proof {
            use_type_invariant(self);
        }
        self.events.len()
    }
}

/// Recording an event keeps the log within its bound, puts the event
/// last, and keeps the most recent of the earlier events in their order.
pub proof fn lemma_record_keeps_latest(events: Seq<ServerLogEntry>, entry: ServerLogEntry)
    requires
        events.len() <= MAX_SERVER_EVENTS,
    ensures
        ({
            let after = spec_after_record(events, entry);
            &&& after.len() <= MAX_SERVER_EVENTS
            &&& after.len() == if events.len() < MAX_SERVER_EVENTS {
                events.len() + 1int
            } else {
                MAX_SERVER_EVENTS as int
            }
            &&& after.last() == entry
            &&& forall|i: int|
                0 <= i < after.len() - 1 ==> after[i] == events[events.len() - (after.len() - 1)
                    + i]
        }),
{
}

} // verus!
