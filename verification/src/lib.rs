//! Core of a multi-connection session server: a single authoritative engine
//! consumes connection envelopes (open, command text, close, tick) in mailbox
//! order, advances a per-connection session state machine, and maintains the
//! shared player directory, name registry, chat history and tick counter.
//!
//! All transport, logging and process bootstrap stays outside this crate; the
//! engine speaks only in plain values: it takes an [`engine::Envelope`] and
//! returns the ordered list of [`engine::Action`]s the transport must perform.

pub mod engine;
pub mod laws;
pub mod model;
pub mod resolver;
pub mod text;
