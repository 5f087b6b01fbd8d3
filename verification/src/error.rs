//! The ways in which a request to the library can fail.

use vstd::prelude::*;

verus! {

/// Why a name could not be read or a plan could not be made.
#[derive(Clone, Copy, Debug, PartialEq, Eq, Structural)]
pub enum PlanError {
    /// The target rate is not greater than zero, or a quantity of the plan
    /// is outside the range of exact 64-bit ratios.
    InvalidRate,
    /// No recipe has the given display name.
    UnknownRecipeName,
    /// No item has the given display name.
    UnknownItemName,
    /// The catalog holds no recipe for a stage of the chain.
    NoMatchingRecipe,
    /// A clock speed lies outside the interval from 0 (exclusive) to 250
    /// (inclusive) percent.
    ClockOutOfRange,
}

impl PlanError {
    /// The text of the message for each error.
    pub open spec fn spec_message(self) -> Seq<char> {
        match self {
            PlanError::InvalidRate => "target rate must be positive and exactly representable"@,
            PlanError::UnknownRecipeName => "unknown recipe name"@,
            PlanError::UnknownItemName => "unknown item name"@,
            PlanError::NoMatchingRecipe => "no recipe in the catalog matches a stage of the chain"@,
            PlanError::ClockOutOfRange => "clock speed outside (0, 250] percent"@,
        }
    }

    /// A short description of the failure, for the caller to present.
    pub fn message(self) -> (s: &'static str)
        ensures
            s@ == self.spec_message(),
    {
        match self {
            PlanError::InvalidRate => "target rate must be positive and exactly representable",
            PlanError::UnknownRecipeName => "unknown recipe name",
            PlanError::UnknownItemName => "unknown item name",
            PlanError::NoMatchingRecipe => "no recipe in the catalog matches a stage of the chain",
            PlanError::ClockOutOfRange => "clock speed outside (0, 250] percent",
        }
    }
}

} // verus!
