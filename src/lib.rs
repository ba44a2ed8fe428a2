//! Variable-rate gradual Dutch auction pricing on checked fixed-point arithmetic.
//!
//! - `wide`: 256-bit unsigned integers.
//! - `precise_number`, `signed_precise`: decimals scaled by 10^18 on that mantissa, with
//!   logarithm, exponential and power.
//! - `wad`: scalar wad arithmetic on `i128`, and the schedule interface.
//! - `pricing`, `state`: the closed-form cost of a purchase and the auction record.
//! - `auction`: the initialize, buy and close transitions.
//! - `laws`: properties of the pricing proved for all inputs.

pub mod auction;
pub mod error;
pub mod laws;
pub mod precise_number;
pub mod pricing;
pub mod signed_precise;
pub mod state;
pub mod wad;
pub mod wide;
