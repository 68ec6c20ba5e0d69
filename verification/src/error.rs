//! Construction-time validation failures.

use vstd::prelude::*;

verus! {

/// Why a `Stock` or a `PortfolioTarget` refused to be built.
///
/// Rebalancing itself never fails; these arise only from the
/// validating constructors.
#[derive(Debug, Clone, Copy, PartialEq, Eq, Structural)]
pub enum PortfolioError {
    /// A stock was given a negative current price.
    InvalidPrice,
    /// The target shares do not sum to exactly 100%.
    AllocationSumMismatch,
    /// Some target share is zero or negative.
    AllocationShareNotPositive,
    /// Two target entries name the same asset.
    AllocationDuplicateName,
}

impl PortfolioError {
    /// The human-readable reason for the failure.
    pub open spec fn spec_message(self) -> Seq<char> {
        match self {
            PortfolioError::InvalidPrice => "a stock price must not be negative"@,
            PortfolioError::AllocationSumMismatch => "the target shares must sum to exactly 100%"@,
            PortfolioError::AllocationShareNotPositive => "every target share must be strictly positive"@,
            PortfolioError::AllocationDuplicateName => "the target names an asset twice"@,
        }
    }

    /// The human-readable reason for the failure.
    pub fn message(&self) -> (r: &'static str)
        ensures
            r@ == self.spec_message(),
    {
        match self {
            PortfolioError::InvalidPrice => "a stock price must not be negative",
            PortfolioError::AllocationSumMismatch => "the target shares must sum to exactly 100%",
            PortfolioError::AllocationShareNotPositive => "every target share must be strictly positive",
            PortfolioError::AllocationDuplicateName => "the target names an asset twice",
        }
    }
}

} // verus!
