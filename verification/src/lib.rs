//! Codec generation for ordered records.
//!
//! A record definition is normalised into a schema, the schema is turned into
//! one implementation block per byte order and direction, and a small engine
//! gives the emitted field walk its meaning on in-memory sinks and sources.

pub mod order;
pub mod schema;
pub mod emit;
pub mod wire;
pub mod engine;
pub mod laws;
