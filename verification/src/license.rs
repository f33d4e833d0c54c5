//! License classification and commercial risk scoring.
pub mod classifier;
pub mod risk;
