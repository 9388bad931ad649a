//! An in-memory multiplayer word-guessing session engine.
//!
//! Sessions hold a fixed word dictionary and a roster of participants;
//! participants claim words, give up, chat, quit and rejoin over a
//! text-command protocol.  The crate provides the pure state machine
//! ([`game`]), the protocol grammars ([`grammar`]), the host handshake
//! ([`host`]), the per-command dispatch and message synthesis
//! ([`protocol`]), request-path routing ([`route`]), and the session
//! registry with its idle lifecycle guard ([`registry`]).  A server wraps
//! these in transport I/O, one execution unit per connection, taking the
//! session's exclusive lock around each call.

pub mod game;
pub mod grammar;
pub mod host;
pub mod protocol;
pub mod registry;
pub mod route;
mod trusted;
