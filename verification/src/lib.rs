//! A portfolio rebalancing calculator.
//!
//! Held positions ([`Stock`]) and a validated target allocation
//! ([`PortfolioTarget`]) go in; a [`RebalanceSuggestion`] of whole-unit
//! buys and sells comes out.  All money amounts and percentages are
//! exact fixed-point decimals ([`Fixed`]), so the validation that the
//! target shares sum to exactly 100% is an exact integer comparison,
//! and the conservative never-overshoot rounding of the rebalancer is
//! plain integer division, both stated and proved here.

pub mod allocation;
pub mod error;
pub mod fixed;
pub mod laws;
pub mod model;
pub mod portfolio;
pub mod stock;

pub use allocation::PortfolioTarget;
pub use error::PortfolioError;
pub use fixed::Fixed;
pub use portfolio::Portfolio;
pub use portfolio::RebalanceSuggestion;
pub use stock::Stock;
