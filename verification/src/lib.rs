//! Verified control logic for gas compressibility (Z-factor) solvers.
//!
//! Floating-point values cross this crate's boundary as their IEEE 754
//! binary64 bit patterns, so that every decision the solvers take on them
//! (ordering, convergence, the physical floor) is a statement about integers
//! that can be proved.

pub mod binary64;
pub mod z_factor;
