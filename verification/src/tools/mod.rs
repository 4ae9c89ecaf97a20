//! What the command line tools decide and compute.
pub mod analyze;
pub mod compare;
pub mod generate;
pub mod highpass;
pub mod report;
pub mod settings;
pub mod statistics;
pub mod statistics_laws;
pub mod sweep;
pub mod trials;
