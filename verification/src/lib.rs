//! A two-level, append-only record store: forms owned by a creator and
//! submissions attached to a form by an author. Every record lives in a slot
//! whose address is derived from the record's identity, never chosen.
//!
//! - `address`: from identity to slot address, with the search for the bump.
//! - `wire`, `instruction`, `state`: the binary layout of commands and
//!   records, with exact sizes, and the proof that decoding inverts encoding.
//! - `processor`: from a request to the one allocation that it comes to, and
//!   to the bytes that go into the new slot.
//! - `ledger`: a storage in memory, on which whole operations run and the
//!   laws of the lifecycle are proved.
//! - `error`: the failures.
//!
//! The library decides and computes; it neither allocates storage nor reads
//! a clock. Its caller does, as the processor asks.

pub mod address;
pub mod error;
pub mod instruction;
pub mod ledger;
pub mod processor;
pub mod state;
pub mod wire;
