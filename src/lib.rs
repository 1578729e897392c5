//! Reconstructs the history of one tracked file: the commit listing is parsed
//! into records, each record becomes one extraction unit, and units run under a
//! counting gate whose outcomes are folded into a run summary.

pub mod extract;
pub mod gate;
pub mod history;
pub mod scheduler;
pub mod text;
