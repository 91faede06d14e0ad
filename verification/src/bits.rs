//! Bit primitives, bit iteration, and precomputed mask tables for 64-bit
//! occupancy words.

pub mod biterator;
pub mod masks;
pub mod utils;
