//! Session and dispatch core of an LSP multiplexing daemon.
//!
//! The daemon spawns one language-server subprocess per (workspace root,
//! language) pair, keeps the per-session bookkeeping that every request
//! depends on, and answers call-hierarchy questions by walking the remote
//! call graph. This crate holds the verified logic: framing, request
//! bookkeeping, URI codecs, and the call-hierarchy walker. Process and
//! socket I/O live outside and drive these types with plain values.

pub mod capabilities;
pub mod config;
pub mod dispatch;
pub mod framing;
pub mod location;
pub mod pathutil;
pub mod rpc;
pub mod session;
pub mod strutil;
pub mod types;
pub mod uri;
pub mod walker;
