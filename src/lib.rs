//! Allocation tracing: what the interceptor records for each allocation,
//! the wire format that carries trace records to a collector, the framing
//! state machine of a collector connection, the trace store, the query
//! loop's logic and the usage aggregator, each with its contract.
//!
//! - `wire`: the four-byte little-endian length prefix.
//! - `codec`: trace records and their MessagePack message bodies.
//! - `framing`: reassembly of messages from a stream read in chunks.
//! - `store`: the trace store, last record per address.
//! - `collector`: decoding and dispatch of the messages of a connection.
//! - `query`: hexadecimal addresses read from a line, and their answers.
//! - `usage`: bytes per call stack and the heaviest call stacks.
//! - `tracer`: the decisions taken for each intercepted allocation.

pub mod wire;
pub mod codec;
pub mod framing;
pub mod store;
pub mod collector;
pub mod query;
pub mod usage;
pub mod tracer;
