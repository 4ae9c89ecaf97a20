//! The state of a live display.
use crate::display::history;
use crate::display::history::{BearingData, History};
use crate::double::Double;
use crate::single::Single;
use std::collections::VecDeque;
use vstd::prelude::*;

verus! {

/// Lines of the log that are kept.
pub const MAX_LOG_LINES: usize = 1000;

/// What arrives from processing.
pub enum Update {
    /// A north tick: its time, its bearing, and what the tracker says
    Data {
        time_secs: Double,
        bearing: Option<BearingData>,
        rotation_freq: Option<Single>,
        lock_quality: Option<Single>,
        phase_error_variance: Option<Single>,
    },
    Log(String),
    /// Processing has ended
    Stopped,
}

/// What an update asks for.
#[derive(Debug, Clone, Copy, PartialEq, Eq)]
pub enum Action {
    Nothing,
    /// Start over at a time, and play
    Loop(Double),
    /// Do not play on
    Pause,
}

/// The newest readings.
#[derive(Debug, Clone, Copy, PartialEq, Eq)]
pub struct Latest {
    pub bearing: Option<Single>,
    pub confidence: Option<Single>,
    pub snr: Option<Single>,
    pub coherence: Option<Single>,
    pub signal_strength: Option<Single>,
    pub rotation_freq: Option<Single>,
    pub lock_quality: Option<Single>,
    pub phase_error_var: Option<Single>,
    pub time_secs: Double,
}

impl Latest {
    pub open spec fn none_spec() -> Latest {
        Latest {
            bearing: None,
            confidence: None,
            snr: None,
            coherence: None,
            signal_strength: None,
            rotation_freq: None,
            lock_quality: None,
            phase_error_var: None,
            time_secs: Double { bits: 0 },
        }
    }

    /// Nothing read.
    pub fn none() -> (l: Latest)
        ensures
            l == Self::none_spec(),
    {
        Latest {
            bearing: None,
            confidence: None,
            snr: None,
            coherence: None,
            signal_strength: None,
            rotation_freq: None,
            lock_quality: None,
            phase_error_var: None,
            time_secs: Double::zero(),
        }
    }

    /// The newest readings once a bearing has come.
    pub open spec fn with_bearing(self, b: BearingData) -> Latest {
        Latest {
            bearing: Some(b.bearing),
            confidence: Some(b.confidence),
            snr: Some(b.snr_db),
            coherence: Some(b.coherence),
            signal_strength: Some(b.signal_strength),
            ..self
        }
    }
}

/// The state of a live display.
pub struct DisplayState {
    pub history: History,
    pub log_lines: VecDeque<String>,
    pub latest: Latest,
    pub processing_stopped: bool,
    pub loop_enabled: bool,
    pub is_file_input: bool,
}

/// The last lines of a log, no more than are kept.
pub open spec fn last_lines(lines: Seq<String>) -> Seq<String> {
    if lines.len() > MAX_LOG_LINES {
        lines.skip(lines.len() - MAX_LOG_LINES)
    } else {
        lines
    }
}

/// The state after a tick.
pub open spec fn after_data(
    before: DisplayState,
    after: DisplayState,
    t: Double,
    bearing: Option<BearingData>,
    rotation_freq: Option<Single>,
    lock_quality: Option<Single>,
    phase_error_variance: Option<Single>,
) -> bool {
    let latest = Latest {
        time_secs: t,
        rotation_freq,
        lock_quality,
        phase_error_var: phase_error_variance,
        ..before.latest
    };
    let seen = match bearing {
        Some(b) => before.history@.with_bearing(t, b),
        None => before.history@,
    };
    let locked = match lock_quality {
        Some(q) => seen.with_lock(t, q),
        None => seen,
    };
    &&& after.history@ == locked.recent(t)
    &&& after.latest == match bearing {
        Some(b) => latest.with_bearing(b),
        None => latest,
    }
    &&& after.log_lines@ == before.log_lines@
    &&& after.processing_stopped == before.processing_stopped
    &&& after.loop_enabled == before.loop_enabled
    &&& after.is_file_input == before.is_file_input
}

/// Whether two states are the same but for the log and for having stopped.
pub open spec fn same_readings(a: DisplayState, b: DisplayState) -> bool {
    &&& a.history@ == b.history@
    &&& a.latest == b.latest
    &&& a.loop_enabled == b.loop_enabled
    &&& a.is_file_input == b.is_file_input
}

impl DisplayState {
    /// A display with nothing on it.
    pub fn new(is_file_input: bool) -> (s: DisplayState)
        ensures
            s.history@ == history::Readings::none(),
            s.log_lines@ == Seq::<String>::empty(),
            s.latest == Latest::none_spec(),
            !s.processing_stopped,
            !s.loop_enabled,
            s.is_file_input == is_file_input,
    {
        DisplayState {
            history: History::new(),
            log_lines: VecDeque::new(),
            latest: Latest::none(),
            processing_stopped: false,
            loop_enabled: false,
            is_file_input,
        }
    }

    /// Forget what was read and go on as if processing had just started. The
    /// log stays.
    pub fn restart(&mut self, clear: bool)
        ensures
            final(self).history@ == if clear {
                history::Readings::none()
            } else {
                old(self).history@
            },
            final(self).latest == if clear {
                Latest::none_spec()
            } else {
                old(self).latest
            },
            !final(self).processing_stopped,
            final(self).log_lines@ == old(self).log_lines@,
            final(self).loop_enabled == old(self).loop_enabled,
            final(self).is_file_input == old(self).is_file_input,
    {
        if clear {
            self.history = History::new();
            self.latest = Latest::none();
        }
        self.processing_stopped = false;
    }

    /// Add a line to the log; the oldest one goes where there are too many.
    pub fn log(&mut self, line: String)
        requires
            old(self).log_lines@.len() <= MAX_LOG_LINES,
        ensures
            final(self).log_lines@ == last_lines(old(self).log_lines@.push(line)),
            final(self).log_lines@.len() <= MAX_LOG_LINES,
            same_readings(*final(self), *old(self)),
            final(self).processing_stopped == old(self).processing_stopped,
    {
        self.log_lines.push_back(line);
        if self.log_lines.len() > MAX_LOG_LINES {
            let ghost all = self.log_lines@;
            let _ = self.log_lines.pop_front();
            assert(self.log_lines@ =~= all.skip(1));
        }
    }

    /// Take an update.
    ///
    /// When processing ends, a recording that is played in a loop starts over
    /// where its time stands; anything else stops.
    pub fn apply(&mut self, update: Update) -> (action: Action)
        requires
            old(self).log_lines@.len() <= MAX_LOG_LINES,
        ensures
            final(self).log_lines@.len() <= MAX_LOG_LINES,
            match update {
                Update::Data {
                    time_secs,
                    bearing,
                    rotation_freq,
                    lock_quality,
                    phase_error_variance,
                } => {
                    &&& action == Action::Nothing
                    &&& after_data(
                        *old(self),
                        *final(self),
                        time_secs,
                        bearing,
                        rotation_freq,
                        lock_quality,
                        phase_error_variance,
                    )
                },
                Update::Log(line) => {
                    &&& action == Action::Nothing
                    &&& final(self).log_lines@ == last_lines(old(self).log_lines@.push(line))
                    &&& same_readings(*final(self), *old(self))
                    &&& final(self).processing_stopped == old(self).processing_stopped
                },
                Update::Stopped => {
                    &&& same_readings(*final(self), *old(self))
                    &&& final(self).log_lines@ == old(self).log_lines@
                    &&& if old(self).loop_enabled && old(self).is_file_input {
                        &&& action == Action::Loop(old(self).latest.time_secs)
                        &&& !final(self).processing_stopped
                    } else {
                        action == Action::Pause && final(self).processing_stopped
                    }
                },
            },
    {
        match update {
            Update::Data {
                time_secs,
                bearing,
                rotation_freq,
                lock_quality,
                phase_error_variance,
            } => {
                self.latest.time_secs = time_secs;
                self.latest.rotation_freq = rotation_freq;
                self.latest.lock_quality = lock_quality;
                self.latest.phase_error_var = phase_error_variance;
                if let Some(b) = bearing {
                    self.history.push_bearing(time_secs, &b);
                    self.latest.bearing = Some(b.bearing);
                    self.latest.confidence = Some(b.confidence);
                    self.latest.snr = Some(b.snr_db);
                    self.latest.coherence = Some(b.coherence);
                    self.latest.signal_strength = Some(b.signal_strength);
                }
                if let Some(q) = lock_quality {
                    self.history.push_lock(time_secs, q);
                }
                self.history.prune(time_secs);
                Action::Nothing
            },
            Update::Log(line) => {
                self.log(line);
                Action::Nothing
            },
            Update::Stopped => {
                if self.loop_enabled && self.is_file_input {
                    self.restart(false);
                    Action::Loop(self.latest.time_secs)
                } else {
                    self.processing_stopped = true;
                    Action::Pause
                }
            },
        }
    }
}

} // verus!
