use vstd::prelude::*;

use crate::events::{Event, EventView, Wakeup};

verus! {

/// Where a magic packet for a host goes: its broadcast address, on the
/// discard port 9.
pub fn wake_destination(broadcast_ip: &str) -> (r: String)
    ensures
        r@ == broadcast_ip@ + ":9"@,
{
    broadcast_ip.to_owned().concat(":9")
}

/// What the polling loop does after an answer.
#[derive(Debug, Clone, PartialEq, Eq)]
pub enum ClientStep {
    /// Nothing new: wait for the next tick.
    Wait,
    /// Send the magic packet, then report it with `on_wake_sent`.
    Wake(Wakeup),
    /// The machine is unknown to the server: stop polling.
    Stop,
}

/// The consumer side of the poll protocol for one machine. Its cursor is the
/// time of the last wake acted upon; it starts at 0 and never goes back.
#[derive(Debug, Clone, PartialEq, Eq)]
pub struct PollingClient {
    cursor: u64,
}

impl View for PollingClient {
    type V = u64;

    closed spec fn view(&self) -> u64 {
        self.cursor
    }
}

impl PollingClient {
    /// A client that has acted on nothing yet.
    pub fn new() -> (r: PollingClient)
        ensures
            r@ == 0,
    {
        PollingClient { cursor: 0 }
    }

    /// The cursor to send with the next poll.
    pub fn cursor(&self) -> (r: u64)
        ensures
            r == self@,
    {
        self.cursor
    }

    /// Decides what to do with the server's answer. A transport failure is no
    /// answer: the loop waits for the next tick with the cursor unchanged.
    pub fn on_answer(&self, event: Event) -> (r: ClientStep)
        ensures
            match event@ {
                EventView::Ignore => r is Wait,
                EventView::MachineNotFound => r is Stop,
                EventView::Wakeup(w) => r is Wake && r->Wake_0@ == w,
            },
    {
        match event {
            Event::Ignore => ClientStep::Wait,
            Event::MachineNotFound => ClientStep::Stop,
            Event::Wakeup(w) => ClientStep::Wake(w),
        }
    }

    /// Moves the cursor to the time of a wake whose packet was sent. The
    /// cursor never moves back.
    pub fn on_wake_sent(&mut self, time_of_occurrence: u64)
        ensures
            final(self)@ == if time_of_occurrence > old(self)@ {
                time_of_occurrence
            } else {
                old(self)@
            },
    {
        if time_of_occurrence > self.cursor {
            self.cursor = time_of_occurrence;
        }
    }
}

} // verus!
