//! A window of bits inside a 64-bit storage word.
//!
//! A [`BitArray`] treats a contiguous run of bits of a `u64` as a bit-field
//! that knows its own position. It can be read as a plain integer, trimmed to
//! a shorter length, laid out on the frame of another window, and combined
//! with another window through a binary operator on the storage words.

pub mod bitarray;
pub mod equality;
pub mod laws;
pub mod word;

pub use crate::bitarray::BitArray;
pub use crate::bitarray::BitArrayError;
