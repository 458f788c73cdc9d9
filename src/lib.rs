//! Decodes a line-oriented build log into events: global notices, completed
//! artifacts and completed builds, reassembled from lines of many builds that
//! may arrive interleaved.
use vstd::prelude::*;

pub mod artifact;
pub mod build_log;
pub mod error;
pub mod event;
pub mod filter;
pub mod laws;
pub mod log;
pub mod token;

pub use error::Error;
pub use event::{Artifact, Build, Event, EventKind, UI};
pub use filter::Filter;
pub use log::EventLog;

verus! {

/// Whether a decode step completed the structure it decodes.
#[derive(Debug, Clone, Copy, PartialEq, Eq, Structural)]
pub enum Decoding {
    Partial,
    Done,
}

} // verus!
