//! Synthetic signals with known answers.
pub mod measure;
pub mod noise;
pub mod signal;
