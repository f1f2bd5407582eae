//! A minimal ballot ledger.
//!
//! The library creates elections, registers candidates against an election,
//! and records votes. Each authenticated voter casts at most one vote per
//! election, only while the election is open, and only for a candidate
//! actually bound to that election. Records live in a keyed store whose
//! addresses are derived deterministically from a namespace tag and seed
//! byte-strings, so record identity is fixed by construction.

pub mod address;
pub mod machine;
pub mod model;
pub mod store;
pub mod records;
