//! A multiplexing client for a publish/subscribe relay protocol carried over
//! a bidirectional message transport.
//!
//! The crate holds the protocol logic: the envelope classifier, the
//! per-connection session state machine with its termination policy, the
//! non-streaming read deadline, and the fan-in stage that merges the outcome
//! streams of all sessions into one ordered, optionally deduplicated output.
//! The transport itself — sockets, frames, timers — lives with the caller,
//! which drives the state machine and hands every transport observation back
//! in as a plain event.

pub mod envelope;
pub mod orchestrator;
pub mod session;

pub use envelope::Response;
pub use orchestrator::ServerResponse;
pub use session::Config;
