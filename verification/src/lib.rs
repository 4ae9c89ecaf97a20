//! Pseudo-Doppler radio direction finding.
//!
//! Bearings are read from stereo audio: one channel carries the Doppler tone
//! of a rotating antenna, the other a pulse at every pass through north. The
//! filters, detectors, trackers and calculators work on IEEE-754 numbers that
//! are held as bit patterns (`single`, `double`), so that what they compute is
//! stated to the last bit. Sines, arctangents, exponentials and the design of
//! filters are left to the caller, who hands the values in.

pub mod angle_laws;
pub mod arithmetic;
pub mod audio;
pub mod cli;
pub mod close;
pub mod config;
pub mod constants;
pub mod display;
pub mod double;
pub mod double_laws;
pub mod error;
pub mod fields;
pub mod ieee;
pub mod output;
pub mod processing;
pub mod rdf;
pub mod report_laws;
pub mod resultant_laws;
pub mod run;
pub mod signal_processing;
pub mod simulation;
pub mod single;
pub mod single_laws;
pub mod stats;
pub mod stats_laws;
pub mod text;
pub mod time_laws;
pub mod tools;
