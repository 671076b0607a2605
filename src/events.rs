use vstd::prelude::*;

verus! {

/// A wake event reported to a poller: where to send the magic packet, and
/// when the wake was requested.
#[derive(Debug, Clone, PartialEq, Eq)]
pub struct Wakeup {
    pub mac_address: String,
    pub broadcast_ip: String,
    pub time_of_occurrence: u64,
}

/// The answer to a poll.
#[derive(Debug, Clone, PartialEq, Eq)]
pub enum Event {
    /// Nothing newer than the poller's cursor.
    Ignore,
    /// The machine is not in the registry.
    MachineNotFound,
    /// The newest wake after the poller's cursor.
    Wakeup(Wakeup),
}

/// The body of a poll response.
#[derive(Debug, Clone, PartialEq, Eq)]
pub struct Response {
    pub event: Event,
}

/// The mathematical form of a [`Wakeup`].
pub struct WakeupView {
    pub mac_address: Seq<char>,
    pub broadcast_ip: Seq<char>,
    pub time_of_occurrence: u64,
}

/// The mathematical form of an [`Event`].
pub enum EventView {
    Ignore,
    MachineNotFound,
    Wakeup(WakeupView),
}

impl View for Wakeup {
    type V = WakeupView;

    open spec fn view(&self) -> WakeupView {
        WakeupView {
            mac_address: self.mac_address@,
            broadcast_ip: self.broadcast_ip@,
            time_of_occurrence: self.time_of_occurrence,
        }
    }
}

impl View for Event {
    type V = EventView;

    open spec fn view(&self) -> EventView {
        match self {
            Event::Ignore => EventView::Ignore,
            Event::MachineNotFound => EventView::MachineNotFound,
            Event::Wakeup(w) => EventView::Wakeup(w@),
        }
    }
}

} // verus!
