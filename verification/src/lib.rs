//! A verified record store for nucleotide sequences.
//!
//! The library keeps one record per authority in a ledger of
//! program-owned accounts at deterministically derived addresses.
//! A record holds a DNA string together with its transcribed RNA
//! strand and its complementary strand, serialized as three
//! length-prefixed byte strings.

pub mod error;
pub mod instruction;
pub mod ledger;
pub mod processor;
pub mod state;
pub mod trusted;
