//! The raw events that a dataflow runtime logs, one record per event.
use vstd::prelude::*;

verus! {

/// Whether an event opens or closes a span.
#[derive(Clone, Copy, Debug, PartialEq, Eq, Structural)]
pub enum StartStop {
    Start,
    Stop,
}

/// Declares that an operator exists, at an address inside its dataflow.
#[derive(Clone, Debug)]
pub struct OperatesEvent {
    pub id: usize,
    pub addr: Vec<usize>,
    pub name: String,
}

/// One end of a channel: an operator index local to the channel's scope,
/// and a port of that operator. Port zero is the scope boundary.
#[derive(Clone, Copy, Debug, PartialEq, Eq, Structural)]
pub struct Endpoint {
    pub operator: usize,
    pub port: usize,
}

/// An edge inside the scope at `scope_addr`, between endpoints that are
/// local to that scope.
#[derive(Clone, Debug)]
pub struct ChannelsEvent {
    pub id: usize,
    pub scope_addr: Vec<usize>,
    pub source: Endpoint,
    pub target: Endpoint,
}

/// An event of the runtime's main log.
#[derive(Clone, Debug)]
pub enum TimelyEvent {
    Operates(OperatesEvent),
    Channels(ChannelsEvent),
    Schedule { id: usize, start_stop: StartStop },
    Shutdown { id: usize },
    Application { id: usize, is_start: bool },
    GuardedMessage { is_start: bool },
    GuardedProgress { is_start: bool },
    Input { start_stop: StartStop },
    Park { timeout: Option<u64> },
    Unpark,
    PushProgress,
    Messages,
    CommChannels,
    Text,
}

/// An event of the arrangement log.
#[derive(Clone, Copy, Debug, PartialEq, Eq, Structural)]
pub enum DifferentialEvent {
    Merge { operator: usize, complete: Option<usize> },
    MergeShortfall { operator: usize },
    Drop { operator: usize },
    Batch,
    TraceShare,
}

} // verus!
