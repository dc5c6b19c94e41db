//! Reconstructs a coherent picture of a dataflow computation from the
//! per-worker event logs of its runtime: operator lifespans and activations,
//! start/stop span records for the worker timeline, globally routed channels,
//! and statistics rolled up per operator, dataflow, worker and program.

pub mod addr;
pub mod antichain;
pub mod events;
pub mod extract;
pub mod fuel;
pub mod progress;
pub mod reader;
pub mod replay;
pub mod slots;
pub mod sources;
pub mod stats;
pub mod subgraphs;
pub mod timeline;
