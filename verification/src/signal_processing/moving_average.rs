//! Simple moving average filter for signal smoothing.
use crate::signal_processing::math;
use crate::single::Single;
use vstd::prelude::*;

verus! {

/// Simple moving average filter for signal smoothing
///
/// Computes the arithmetic mean of the last N values in a sliding window.
/// Used to smooth bearing measurements and reduce noise in the output.
///
/// The filter maintains a circular buffer: a value takes the place of the
/// oldest one.
pub struct MovingAverage {
    buffer: Vec<Single>,
    index: usize,
    filled: bool,
}

/// What a filter holds: its slots, the one that the next value takes, and
/// whether every slot has been taken once.
pub ghost struct Slots {
    pub values: Seq<Single>,
    pub next: int,
    pub full: bool,
}

impl Slots {
    /// Whether nothing has been added to this many slots yet.
    pub open spec fn is_empty(self, slots: nat) -> bool {
        &&& self.values == Seq::new(slots, |i: int| Single { bits: 0 })
        &&& self.next == 0
        &&& !self.full
    }

    /// The values in the window, oldest first.
    pub open spec fn window(self) -> Seq<Single> {
        if self.full {
            self.values.skip(self.next) + self.values.take(self.next)
        } else {
            self.values.take(self.next)
        }
    }

    pub open spec fn added(self, value: Single) -> Slots {
        let n = self.values.len() as int;
        let next = if self.next + 1 < n {
            self.next + 1
        } else {
            0
        };
        Slots {
            values: self.values.update(self.next, value),
            next,
            full: self.full || next == 0,
        }
    }

    /// The slot of the newest value.
    pub open spec fn newest(self) -> int {
        if self.next > 0 {
            self.next - 1
        } else {
            self.values.len() - 1
        }
    }

    pub open spec fn replaced(self, value: Single) -> Slots {
        if !self.full && self.next == 0 {
            self.added(value)
        } else {
            Slots { values: self.values.update(self.newest(), value), ..self }
        }
    }

    /// The mean: the sum of all slots over the number of values. A slot that
    /// has not been taken holds zero.
    pub open spec fn mean(self) -> Single {
        math::sum_of(self.values).over_spec(
            Single::from_integer_spec(
                if self.full {
                    self.values.len() as int
                } else if self.next > 0 {
                    self.next
                } else {
                    1
                },
            ),
        )
    }

    pub open spec fn valid(self) -> bool {
        0 <= self.next < self.values.len()
    }

    /// Adding a value keeps the newest ones, as many as there are slots.
    pub proof fn adding_slides_the_window(self, value: Single)
        requires
            self.valid(),
        ensures
            self.added(value).valid(),
            self.added(value).window() == if self.window().len() < self.values.len() {
                self.window().push(value)
            } else {
                self.window().skip(1).push(value)
            },
    {
        let n = self.values.len() as int;
        let w = self.added(value).window();
        if self.full {
            assert(self.window().len() == n);
            assert(w =~= self.window().skip(1).push(value));
        } else {
            assert(w =~= self.window().push(value));
        }
    }

    /// Replacing the newest value leaves the older ones alone.
    pub proof fn replacing_keeps_older_values(self, value: Single)
        requires
            self.valid(),
            self.window().len() > 0,
        ensures
            self.replaced(value).valid(),
            self.replaced(value).window() == self.window().drop_last().push(value),
    {
        assert(self.replaced(value).window() =~= self.window().drop_last().push(value));
    }
}

impl View for MovingAverage {
    type V = Slots;

    closed spec fn view(&self) -> Slots {
        Slots { values: self.buffer@, next: self.index as int, full: self.filled }
    }
}

impl MovingAverage {
    /// Create a new moving average filter
    ///
    /// # Arguments
    /// * `window_size` - Number of samples to average (larger = smoother but slower response)
    pub fn new(window_size: usize) -> (m: MovingAverage)
        ensures
            m@.is_empty(window_size as nat),
    {
        let mut buffer: Vec<Single> = Vec::new();
        let mut i: usize = 0;
        while i < window_size
            invariant
                i <= window_size,
                buffer@ == Seq::new(i as nat, |j: int| Single { bits: 0 }),
            decreases window_size - i,
        {
            buffer.push(Single::zero());
            i = i + 1;
            assert(buffer@ =~= Seq::new(i as nat, |j: int| Single { bits: 0 }));
        }
        MovingAverage { buffer, index: 0, filled: false }
    }

    /// Add a new value to the moving average and return the updated average
    ///
    /// Adds the value to the circular buffer and returns the current average
    /// of all values in the window.
    pub fn add(&mut self, value: Single) -> (average: Single)
        requires
            old(self)@.valid(),
        ensures
            final(self)@ == old(self)@.added(value),
            final(self)@.valid(),
            average == final(self)@.mean(),
    {
        let n: usize = self.buffer.len();
        self.buffer.set(self.index, value);
        self.index = if self.index + 1 < n {
            self.index + 1
        } else {
            0
        };
        if self.index == 0 {
            self.filled = true;
        }
        self.average()
    }

    /// Overwrite the most recently added value and return the updated
    /// average. Falls back to `add` when the window is still empty.
    ///
    /// This is what lets a caller hold one window slot per independent
    /// observation while still tracking the newest measurement: revisions
    /// of the same observation replace their slot instead of consuming
    /// the window.
    pub fn replace_last(&mut self, value: Single) -> (average: Single)
        requires
            old(self)@.valid(),
        ensures
            final(self)@ == old(self)@.replaced(value),
            final(self)@.valid(),
            average == final(self)@.mean(),
    {
        if !self.filled && self.index == 0 {
            return self.add(value);
        }
        let last: usize = if self.index > 0 {
            self.index - 1
        } else {
            self.buffer.len() - 1
        };
        self.buffer.set(last, value);
        self.average()
    }

    /// Get the current average without adding a new value
    ///
    /// Returns the mean of all values currently in the window.
    pub fn average(&self) -> (average: Single)
        ensures
            average == self@.mean(),
    {
        let sum: Single = math::sum(self.buffer.as_slice());
        let count: usize = if self.filled {
            self.buffer.len()
        } else if self.index > 0 {
            self.index
        } else {
            1
        };
        sum.over(Single::from_count(count))
    }
}

} // verus!
