//! Audio input: what is decided about it and what is made of its samples.
pub mod buffer;
pub mod capture;
pub mod source;
