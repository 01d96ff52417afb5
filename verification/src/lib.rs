//! Core logic of a local text-event relay: records framed on a zero delimiter
//! arrive over a named channel, bursts are coalesced into single messages, and
//! the result is fanned out as JSON frames to a set of live downstream
//! connections that each pass a one-time origin check.

pub mod broadcast;
pub mod client;
pub mod coalesce;
pub mod framer;
pub mod handshake;
pub mod json;
pub mod nonblocking;
pub mod pipe;
pub mod text;
pub mod tts;
