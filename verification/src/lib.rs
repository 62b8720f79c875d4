//! A verified core for a small RESP (Redis serialization protocol) server:
//! the frame codec, the command parser, the keyed store with TTL bookkeeping,
//! and the subscribe-mode state machine.

pub mod codec_laws;
pub mod commands;
pub mod constants;
pub mod db;
pub mod decimal;
pub mod frame;
pub mod parse;
pub mod pubsub;
pub mod server;
