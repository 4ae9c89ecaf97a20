//! What a live display holds and shows.
pub mod compass;
pub mod compass_laws;
pub mod history;
pub mod playback;
pub mod state;
pub mod status;
