//! Push-based data channels for a streaming dataflow: batches of records that
//! travel with a timestamp, sinks that accept them, a pusher that transforms
//! every message on its way to a sink, a tee that multicasts one message to a
//! list of sinks, and the record-level combinators built from these.

pub mod content;
pub mod map;
pub mod operators;
pub mod push;
pub mod queue;
pub mod tee;
