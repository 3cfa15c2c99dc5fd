//! The sessions the daemon owns: what starts one, what its output does on the way to a
//! client, and what each verb on it answers.
pub mod exit;
pub mod failure;
pub mod flow;
pub mod program;
pub mod pump;
pub mod registry;
pub mod verbs;

pub use failure::SessionError;
