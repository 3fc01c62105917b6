//! Slow-path core of a correctly-rounded string-to-float conversion.
//!
//! Given the significant digits of a numeric literal in some radix, a summary
//! of the parsed number, and a candidate extended-precision float produced by
//! a faster approximation, this crate resolves the exact IEEE-754 rounding by
//! arbitrary-precision arithmetic.  It provides the multi-precision integer
//! built on a bounded vector of limbs, the per-radix limit tables that drive
//! path selection, the digit-comparison slow path for every radix with a
//! finite digit budget, and the fast path for power-of-two radixes.  Odd
//! radixes, whose inputs can carry unboundedly many significant digits,
//! are not resolved here.

pub mod bigint;
pub mod binary;
pub mod float;
pub mod shared;
pub mod bignum;
pub mod large;
pub mod quorem;
pub mod slow;
pub mod limbs;
pub mod limits;
