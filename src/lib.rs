//! Connection and session management for a push-to-talk transcription relay:
//! the message model and its JSON codec, the client registry with
//! heartbeat-based liveness, the per-connection handling state machine, and
//! the server loop's decisions.

pub mod connection;
pub mod injection;
pub mod protocol;
pub mod registry;
pub mod server;
