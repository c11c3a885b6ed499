//! Shielded-note wallet engine: commitment accumulator, note model,
//! wallet state store, fee estimation, transaction resolution, and
//! block digestion for a privacy-preserving value-transfer protocol.

pub mod digest;
pub mod error;
pub mod tree;
pub mod note;
pub mod keys;
pub mod encryption;
pub mod fees;
pub mod wallet;
pub mod resolve;
pub mod hexstr;
pub mod names;
pub mod sign;
pub mod token;
pub mod persist;
