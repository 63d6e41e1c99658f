//! Reversible message padding for block-oriented framing.
//!
//! A message of `pos` bytes is laid out as a header byte, `pad_len` random
//! bytes, the message itself and `block_size - 1` zero bytes, so that the whole
//! is a multiple of the block size. The low bits of the header byte hold
//! `pad_len - 2`; its high bits are the complement of `block_size - 1`.

pub mod spec;
pub mod padding;
pub mod laws;
mod os_random;

pub use padding::{PadError, TxPadding, UnpadError};
