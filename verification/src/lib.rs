//! The decision-making half of a terminal daemon: sessions, streams under a credit window,
//! control-line framing, discovery, and the refusals each of them answers with.
//!
//! Everything here computes on plain values and is verified. What touches a socket, a file, a
//! clock or a process table is done by the caller, which hands the answers in as arguments.
use vstd::prelude::*;

pub mod agent_status;
pub mod client;
pub mod control;
pub mod digest;
pub mod discovery;
pub mod endpoint;
pub mod errors;
pub mod lease;
pub mod log_file;
pub mod paths;
pub mod peer;
pub mod project;
pub mod server;
pub mod session;
pub mod spool;
pub mod stream;
pub mod tasks;
pub mod text;
pub mod wire;

verus! {

}
