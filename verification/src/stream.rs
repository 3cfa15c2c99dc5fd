//! Terminal output on its way to a client: frames under a credit window.
pub mod registry;
pub mod sink;

pub use registry::{AttachedStream, BoundStream, ConnectionKey, StreamRegistry};
pub use sink::{SendOutcome, StreamSink};
