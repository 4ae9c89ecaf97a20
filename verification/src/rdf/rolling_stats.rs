//! Mean and spread over a sliding window.
use crate::double::Double;
use crate::single::Single;
use vstd::prelude::*;

verus! {

/// Mean and spread of the newest values, up to a number of them. The sums are
/// carried along in double precision.
pub struct RollingWindowStats {
    window: Vec<Single>,
    max_len: usize,
    sum: Double,
    sum_sq: Double,
}

/// What the statistics hold.
pub ghost struct Rolling {
    pub window: Seq<Single>,
    pub max_len: nat,
    pub sum: Double,
    pub sum_sq: Double,
}

impl Rolling {
    /// Nothing yet.
    pub open spec fn empty(max_len: nat) -> Rolling {
        Rolling {
            window: Seq::empty(),
            max_len,
            sum: Double { bits: 0 },
            sum_sq: Double { bits: 0 },
        }
    }

    /// The statistics without their oldest value.
    pub open spec fn without_oldest(self) -> Rolling {
        let old = Double::from_single_spec(self.window[0]);
        Rolling {
            window: self.window.skip(1),
            sum: self.sum.minus_spec(old),
            sum_sq: self.sum_sq.minus_spec(old.times_spec(old)),
            ..self
        }
    }

    /// The statistics with one more value.
    pub open spec fn with_newest(self, value: Single) -> Rolling {
        let v = Double::from_single_spec(value);
        Rolling {
            window: self.window.push(value),
            sum: self.sum.plus_spec(v),
            sum_sq: self.sum_sq.plus_spec(v.times_spec(v)),
            ..self
        }
    }

    /// The statistics after a value: a full window loses its oldest one.
    pub open spec fn updated(self, value: Single) -> Rolling {
        if self.window.len() == self.max_len && self.window.len() > 0 {
            self.without_oldest().with_newest(value)
        } else {
            self.with_newest(value)
        }
    }

    pub open spec fn count(self) -> nat {
        self.window.len()
    }

    pub open spec fn mean(self) -> Option<Single> {
        if self.window.len() == 0 {
            None
        } else {
            Some(
                self.sum.over_spec(Double::from_count_spec(self.window.len())).to_single_spec(),
            )
        }
    }

    /// The mean of the squares less the square of the mean, from two values
    /// on. It does not go below zero.
    pub open spec fn variance(self) -> Option<Single> {
        if self.window.len() < 2 {
            None
        } else {
            let n = Double::from_count_spec(self.window.len());
            let mean = self.sum.over_spec(n);
            Some(
                self.sum_sq.over_spec(n).minus_spec(mean.times_spec(mean)).max_spec(
                    Double { bits: 0 },
                ).to_single_spec(),
            )
        }
    }

    pub open spec fn std_dev(self) -> Option<Single> {
        match self.variance() {
            Some(v) => Some(v.sqrt_spec()),
            None => None,
        }
    }

    /// The window slides: it holds the newest values, as many as it has room
    /// for.
    pub proof fn update_slides_the_window(self, value: Single)
        requires
            self.window.len() <= self.max_len,
            self.max_len > 0,
        ensures
            self.updated(value).window.len() <= self.max_len,
            self.updated(value).window == if self.window.len() < self.max_len {
                self.window.push(value)
            } else {
                self.window.skip(1).push(value)
            },
    {
    }
}

impl View for RollingWindowStats {
    type V = Rolling;

    closed spec fn view(&self) -> Rolling {
        Rolling {
            window: self.window@,
            max_len: self.max_len as nat,
            sum: self.sum,
            sum_sq: self.sum_sq,
        }
    }
}

impl RollingWindowStats {
    pub fn new(max_len: usize) -> (s: RollingWindowStats)
        ensures
            s@ == Rolling::empty(max_len as nat),
    {
        RollingWindowStats {
            window: Vec::new(),
            max_len,
            sum: Double::zero(),
            sum_sq: Double::zero(),
        }
    }

    /// Take a value into the statistics.
    pub fn update(&mut self, value: Single)
        ensures
            final(self)@ == old(self)@.updated(value),
    {
        if self.window.len() == self.max_len && self.window.len() > 0 {
            let oldest: Double = Double::from_single(self.window.remove(0));
            assert(self.window@ =~= old(self).window@.skip(1));
            self.sum = self.sum.minus(oldest);
            self.sum_sq = self.sum_sq.minus(oldest.times(oldest));
        }
        self.window.push(value);
        let v: Double = Double::from_single(value);
        self.sum = self.sum.plus(v);
        self.sum_sq = self.sum_sq.plus(v.times(v));
    }

    /// Forget every value.
    pub fn clear(&mut self)
        ensures
            final(self)@ == Rolling::empty(old(self)@.max_len),
    {
        self.window.clear();
        self.sum = Double::zero();
        self.sum_sq = Double::zero();
    }

    pub fn count(&self) -> (n: usize)
        ensures
            n == self@.count(),
    {
        self.window.len()
    }

    pub fn mean(&self) -> (m: Option<Single>)
        ensures
            m == self@.mean(),
    {
        let n: usize = self.window.len();
        if n == 0 {
            None
        } else {
            Some(self.sum.over(Double::from_count(n)).to_single())
        }
    }

    pub fn variance(&self) -> (v: Option<Single>)
        ensures
            v == self@.variance(),
    {
        let n: usize = self.window.len();
        if n < 2 {
            return None;
        }
        let n: Double = Double::from_count(n);
        let mean: Double = self.sum.over(n);
        let var: Double = self.sum_sq.over(n).minus(mean.times(mean));
        Some(var.max(Double::zero()).to_single())
    }

    pub fn std_dev(&self) -> (s: Option<Single>)
        ensures
            s == self@.std_dev(),
    {
        match self.variance() {
            Some(v) => Some(v.sqrt()),
            None => None,
        }
    }
}

} // verus!
