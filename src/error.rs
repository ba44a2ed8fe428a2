//! The failures that the auction reports.
use vstd::prelude::*;

verus! {

#[derive(Clone, Copy, Debug, PartialEq, Eq, Structural)]
pub enum VRGDAError {
    AmountCantBeZero,
    AmountExceedsTotalSupply,
    AddressesDontMatch,
    ExponentErrorInTMinusFInverse,
    ExponentError,
    ExponentTooLarge,
    OneMinusKError,
    LogError,
    DivisionError,
    MathOverflow,
    InvalidDecayConstant,
    AuctionEnded,
    NonNegativeDecayConstant,
}

pub type VrgdaResult<T> = Result<T, VRGDAError>;

impl VRGDAError {
    /// A short description of the failure.
    pub fn message(&self) -> &'static str {
        match self {
            VRGDAError::AmountCantBeZero => "amount cant be zero",
            VRGDAError::AmountExceedsTotalSupply => "Buyer amount exceeds total supply",
            VRGDAError::AddressesDontMatch => "address mismatch",
            VRGDAError::ExponentErrorInTMinusFInverse => "exponent error in T minus F inverse",
            VRGDAError::ExponentError => "Exponent error",
            VRGDAError::ExponentTooLarge => "exponent too large",
            VRGDAError::OneMinusKError => "One minus k error",
            VRGDAError::LogError => "Log error",
            VRGDAError::DivisionError => "division error",
            VRGDAError::MathOverflow => "math overflow",
            VRGDAError::InvalidDecayConstant => "Invalid decay constant percentage",
            VRGDAError::AuctionEnded => "Auction has ended",
            VRGDAError::NonNegativeDecayConstant => "Decay constant should be negative",
        }
    }
}

} // verus!
