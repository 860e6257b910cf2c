//! A verified core for keeping one logical clipboard synchronized across
//! machines over a persistent TCP connection.
//!
//! The pieces, leaf first: [`wire`] frames and parses the JSON wire
//! protocol, including the greedy brace-depth scan that peels messages
//! off a byte stream with no message boundaries; [`tcp`] holds the
//! message type, the wire codec entry points and the outbound send
//! queue; [`state`] owns the one shared state and the echo-suppression
//! model with its laws; [`clipboard`] implements the change detector,
//! the inbound apply path and the history; [`config`] converts the
//! persisted form of the state; [`session`] is the connection lifecycle
//! as a pure transition table. [`wrappers`] holds the few trusted
//! declarations for outside crates (base64, uuid, chrono).
//!
//! The surrounding process — sockets, clipboard capability, files,
//! timers — lives outside this crate and acts only as the verified
//! functions direct.

pub mod clipboard;
pub mod config;
pub mod errors;
pub mod session;
pub mod state;
pub mod tcp;
pub mod wire;
pub mod wrappers;
