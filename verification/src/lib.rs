//! Production-line ratio planning for a factory-building game.
//!
//! Rates and clock speeds are exact rationals; every public operation carries
//! a machine-checked contract over a real-valued model of the arithmetic.

pub mod binary32;
pub mod chains;
pub mod error;
pub mod fraction;
pub mod machine;
pub mod names;
pub mod planner;
pub mod ratio;
pub mod recipes;
