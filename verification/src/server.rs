//! What the daemon decides while it serves: whom to let in, what each verb answers, what a
//! retry is told, and when to retire.
pub mod daemon;
pub mod handshake;
pub mod receipts;
pub mod retire;

pub use daemon::{Daemon, DaemonConfig, ServerError};
