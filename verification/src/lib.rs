//! Packing of fixed-width components into one arbitrary-precision integer,
//! and the way back.
//!
//! Several small numbers, each given the same number of bits, are laid side
//! by side in one big integer, the first of them in the most significant
//! slot. A scheme that works on one big integer at a time can then carry
//! many values at once.

pub mod bigint;
pub mod convert;
pub mod encoding;
pub mod layout;
