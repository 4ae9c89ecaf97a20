//! Zero-crossing detector with hysteresis.
use crate::constants;
use crate::ieee;
use crate::single;
use crate::single::Single;
use crate::single_laws;
use vstd::arithmetic::power2;
use vstd::prelude::*;

verus! {

/// A rising-edge crossing, at a position relative to the start of the buffer
/// that confirmed it: negative when it happened in an earlier buffer.
#[derive(Clone, Copy, Debug, PartialEq, Eq)]
pub struct Crossing {
    /// The first sample above zero, or the confirming sample where the zero
    /// crossing itself was not seen.
    pub index: isize,
    /// The samples at `index - 1` and `index` between which the signal passed
    /// through zero; the crossing lies between them in proportion to their
    /// distance from zero. `None` places the crossing at `index` itself.
    pub span: Option<(Single, Single)>,
}

/// Zero-crossing detector with hysteresis
///
/// Detects rising-edge zero crossings (negative to positive transitions) in
/// an audio signal with configurable hysteresis to reject noise.
///
/// The detector only triggers when the signal transitions from below
/// `-hysteresis` to above `+hysteresis`, providing noise immunity for
/// noisy signals near zero.
pub struct ZeroCrossingDetector {
    hysteresis: Single,
    armed: bool,
    // Carried across find_all_crossings calls so a crossing that straddles a
    // buffer boundary is interpolated instead of snapped to index 0.
    prev_sample: Option<Single>,
    // Crossing detected but not yet confirmed by the hysteresis threshold,
    // expressed relative to the current buffer (negative once carried over).
    pending_crossing: Option<Crossing>,
}

/// What a detector holds between samples.
pub ghost struct CrossingState {
    pub hysteresis: Single,
    pub armed: bool,
    pub prev: Option<Single>,
    pub pending: Option<CrossingAt>,
}

/// A crossing with a mathematical position.
pub ghost struct CrossingAt {
    pub index: int,
    pub span: Option<(Single, Single)>,
}

impl View for Crossing {
    type V = CrossingAt;

    open spec fn view(&self) -> CrossingAt {
        CrossingAt { index: self.index as int, span: self.span }
    }
}

impl CrossingAt {
    /// Where the signal passed through zero, interpolated between the two
    /// samples around it.
    pub open spec fn position(self) -> Single {
        let at = Single::from_integer_spec(self.index);
        match self.span {
            Some((prev, sample)) => {
                let rise = sample.minus_spec(prev);
                if constants::of(constants::INTERPOLATION_EPSILON).lt_spec(rise.abs_spec()) {
                    at.minus_spec(sample.over_spec(rise))
                } else {
                    at
                }
            },
            None => at,
        }
    }

    pub open spec fn shifted(self, by: int) -> CrossingAt {
        CrossingAt { index: self.index + by, ..self }
    }
}

/// An unconfirmed crossing seen from the end of a buffer of `len` samples.
/// Its position does not go below the least `isize`.
pub open spec fn carried(pending: Option<CrossingAt>, len: int) -> Option<CrossingAt> {
    match pending {
        Some(c) => Some(
            CrossingAt {
                index: if c.index - len >= isize::MIN {
                    c.index - len
                } else {
                    isize::MIN as int
                },
                ..c
            },
        ),
        None => None,
    }
}

impl CrossingState {
    /// A sample below the negative threshold arms the detector.
    pub open spec fn arms(self, sample: Single) -> bool {
        sample.lt_spec(self.hysteresis.neg_spec())
    }

    pub open spec fn armed_at(self, sample: Single) -> bool {
        self.armed || self.arms(sample)
    }

    /// The unconfirmed crossing once the sample at `index` has been looked
    /// at: arming forgets one, and a step from zero or below to above zero
    /// makes one where there is none.
    pub open spec fn pending_at(self, index: int, sample: Single) -> Option<CrossingAt> {
        if self.pending is Some && !self.arms(sample) {
            self.pending
        } else if self.armed_at(sample) && (Single { bits: 0 }).lt_spec(sample)
            && self.prev is Some && self.prev->0.le_spec(Single { bits: 0 }) {
            Some(CrossingAt { index, span: Some((self.prev->0, sample)) })
        } else {
            None
        }
    }

    /// Whether the sample confirms a crossing: the detector is armed and the
    /// sample lies above the threshold.
    pub open spec fn confirms(self, sample: Single) -> bool {
        self.armed_at(sample) && self.hysteresis.lt_spec(sample)
    }

    /// The crossing that a confirming sample at `index` reports.
    pub open spec fn confirmed(self, index: int, sample: Single) -> CrossingAt {
        match self.pending_at(index, sample) {
            Some(c) => c,
            None => CrossingAt { index, span: None },
        }
    }

    pub open spec fn step(self, index: int, sample: Single) -> CrossingState {
        if self.confirms(sample) {
            CrossingState { armed: false, prev: Some(sample), pending: None, ..self }
        } else {
            CrossingState {
                armed: self.armed_at(sample),
                prev: Some(sample),
                pending: self.pending_at(index, sample),
                ..self
            }
        }
    }

    /// The state after the first `k` samples of a buffer, with positions
    /// relative to that buffer.
    pub open spec fn after(self, buffer: Seq<Single>, k: int) -> CrossingState
        decreases k,
    {
        if k <= 0 {
            self
        } else {
            self.after(buffer, k - 1).step(k - 1, buffer[k - 1])
        }
    }

    /// The crossings that the first `k` samples of a buffer confirm.
    pub open spec fn crossings(self, buffer: Seq<Single>, k: int) -> Seq<CrossingAt>
        decreases k,
    {
        if k <= 0 {
            Seq::empty()
        } else {
            let earlier = self.crossings(buffer, k - 1);
            let state = self.after(buffer, k - 1);
            if state.confirms(buffer[k - 1]) {
                earlier.push(state.confirmed(k - 1, buffer[k - 1]))
            } else {
                earlier
            }
        }
    }

    /// The state after a buffer, with positions relative to the next one.
    pub open spec fn advanced(self, buffer: Seq<Single>) -> CrossingState {
        let end = self.after(buffer, buffer.len() as int);
        CrossingState { pending: carried(end.pending, buffer.len() as int), ..end }
    }
}

/// Crossings as the detector returns them, with mathematical positions.
pub open spec fn crossing_list(crossings: Seq<Crossing>) -> Seq<CrossingAt> {
    crossings.map_values(|c: Crossing| c@)
}

pub open spec fn shifted_all(crossings: Seq<CrossingAt>, by: int) -> Seq<CrossingAt> {
    crossings.map_values(|c: CrossingAt| c.shifted(by))
}

impl CrossingState {
    proof fn prefix(self, a: Seq<Single>, b: Seq<Single>, k: int)
        requires
            0 <= k <= a.len(),
        ensures
            self.after(a + b, k) == self.after(a, k),
            self.crossings(a + b, k) == self.crossings(a, k),
        decreases k,
    {
        if k > 0 {
            self.prefix(a, b, k - 1);
        }
    }

    proof fn suffix(self, a: Seq<Single>, b: Seq<Single>, k: int)
        requires
            0 <= k <= b.len(),
            self.after(a, a.len() as int).pending is Some ==> self.after(
                a,
                a.len() as int,
            ).pending->0.index - a.len() >= isize::MIN,
        ensures
            ({
                let n = a.len() as int;
                let whole = self.after(a + b, n + k);
                let split = self.advanced(a).after(b, k);
                &&& whole.hysteresis == split.hysteresis
                &&& whole.armed == split.armed
                &&& whole.prev == split.prev
                &&& whole.pending == (match split.pending {
                    Some(c) => Some(c.shifted(n)),
                    None => None,
                })
                &&& self.crossings(a + b, n + k) == self.crossings(a, n) + shifted_all(
                    self.advanced(a).crossings(b, k),
                    n,
                )
            }),
        decreases k,
    {
        let n = a.len() as int;
        let s1 = self.advanced(a);
        if k > 0 {
            self.suffix(a, b, k - 1);
            assert((a + b)[n + k - 1] == b[k - 1]);
            assert(self.crossings(a + b, n + k) =~= self.crossings(a, n) + shifted_all(
                s1.crossings(b, k),
                n,
            ));
        } else {
            self.prefix(a, b, n);
            assert(self.crossings(a, n) + shifted_all(s1.crossings(b, 0), n)
                =~= self.crossings(a, n));
        }
    }

    /// An unconfirmed crossing lies at or ahead of the sample after it.
    proof fn pending_range(self, buffer: Seq<Single>, k: int)
        requires
            0 <= k <= buffer.len(),
        ensures
            self.after(buffer, k).pending is Some ==> {
                let index = self.after(buffer, k).pending->0.index;
                self.pending is Some && index == self.pending->0.index || 0 <= index < k
            },
        decreases k,
    {
        if k > 0 {
            self.pending_range(buffer, k - 1);
        }
    }

    /// Where a signal is cut into buffers does not matter to the crossings
    /// that are found, nor to the state afterwards, as long as positions do
    /// not run out of the range of `isize`.
    pub proof fn split_keeps_crossings(self, a: Seq<Single>, b: Seq<Single>)
        requires
            a.len() + b.len() <= isize::MAX,
            self.pending is Some ==> self.pending->0.index - a.len() - b.len() >= isize::MIN,
        ensures
            self.crossings(a + b, (a + b).len() as int) == self.crossings(a, a.len() as int)
                + shifted_all(self.advanced(a).crossings(b, b.len() as int), a.len() as int),
            self.advanced(a).advanced(b) == self.advanced(a + b),
    {
        self.pending_range(a, a.len() as int);
        self.suffix(a, b, b.len() as int);
        self.advanced(a).pending_range(b, b.len() as int);
    }
}

impl CrossingState {
    /// The crossings of a buffer come in order, each one further on than the
    /// one before it, and an unconfirmed one lies behind them all.
    pub proof fn crossings_come_in_order(self, buffer: Seq<Single>, k: int)
        requires
            0 <= k <= buffer.len(),
            self.pending matches Some(c) ==> c.index < 0,
        ensures
            forall|i: int|
                0 <= i < self.crossings(buffer, k).len() ==> (#[trigger] self.crossings(
                    buffer,
                    k,
                )[i]).index < k,
            forall|i: int, j: int|
                0 <= i < j < self.crossings(buffer, k).len() ==> (#[trigger] self.crossings(
                    buffer,
                    k,
                )[i]).index < (#[trigger] self.crossings(buffer, k)[j]).index,
            self.after(buffer, k).pending matches Some(c) ==> c.index < k && forall|i: int|
                0 <= i < self.crossings(buffer, k).len() ==> (#[trigger] self.crossings(
                    buffer,
                    k,
                )[i]).index < c.index,
        decreases k,
    {
        if k > 0 {
            self.crossings_come_in_order(buffer, k - 1);
        }
    }
}

impl CrossingAt {
    /// Whether the samples about a crossing are numbers, and the signal rises
    /// through zero between them.
    pub open spec fn rises(self) -> bool {
        match self.span {
            Some((prev, sample)) => {
                &&& prev.finite()
                &&& sample.finite()
                &&& prev.le_spec(Single { bits: 0 })
                &&& (Single { bits: 0 }).lt_spec(sample)
                &&& sample.minus_spec(prev).finite()
            },
            None => true,
        }
    }

    /// The share of the last step that lies behind a crossing is at most one.
    proof fn share_is_in_unit_range(prev: Single, sample: Single)
        requires
            prev.finite(),
            sample.finite(),
            prev.le_spec(Single { bits: 0 }),
            (Single { bits: 0 }).lt_spec(sample),
            sample.minus_spec(prev).finite(),
        ensures
            single_laws::in_unit_range(sample.over_spec(sample.minus_spec(prev))),
    {
        let h = single::HIDDEN as nat;
        let inf = single::INFINITE as nat;
        let u = power2::pow2(single::UNIT as nat);
        let rise = sample.minus_spec(prev);
        let zero = Single { bits: 0 };
        single_laws::value_of_one();
        ieee::pattern_value_increases(h, 0, 0);
        single::rank_orders_values(prev, zero);
        single::rank_orders_values(zero, sample);
        assert(prev.neg_spec().value() == -prev.value());
        let n = (sample.value() - prev.value()) as nat;
        ieee::nearest_exists(h, inf, n, 1);
        ieee::nearest_at_least(h, inf, n, 1, sample.magnitude() as nat);
        ieee::pattern_value_increases(h, sample.magnitude() as nat, rise.magnitude() as nat);
        let a = sample.value() as nat;
        let b = rise.value() as nat;
        assert(a <= b);
        assert(a * u <= u * b) by (nonlinear_arith)
            requires
                a <= b,
                u >= 0,
        ;
        ieee::nearest_exists(h, inf, a * u, b);
        ieee::nearest_at_most(h, inf, a * u, b, single::ONE_BITS as nat);
    }

    /// A crossing that is counted from elsewhere lies where it did, but for
    /// the rounding of the two positions: where both are less than `2^bits`
    /// samples away, that is `2^(bits - 23)` of a sample. At `2^13` samples it
    /// is less than a thousandth.
    pub proof fn counting_from_elsewhere_keeps_the_position(self, by: int, bits: nat)
        requires
            self.rises(),
            bits <= 24,
            -power2::pow2(bits) < self.index < power2::pow2(bits),
            -power2::pow2(bits) < self.index + by < power2::pow2(bits),
        ensures
            ({
                let u = power2::pow2(single::UNIT as nat);
                let a = self.position();
                let b = self.shifted(by).position();
                &&& a.finite()
                &&& b.finite()
                &&& 0x80_0000 * (b.value() - (a.value() + by * u)) <= power2::pow2(bits) * u
                &&& 0x80_0000 * ((a.value() + by * u) - b.value()) <= power2::pow2(bits) * u
            }),
    {
        let u = power2::pow2(single::UNIT as nat) as int;
        let far = power2::pow2(bits) as int;
        let (i, j) = (self.index, self.index + by);
        power2::lemma2_to64();
        power2::lemma_pow2_pos(bits);
        if bits < 24 {
            power2::lemma_pow2_strictly_increases(bits, 24);
        }
        single_laws::count_is_exact(i);
        single_laws::count_is_exact(j);
        power2::lemma_pow2_pos(single::UNIT as nat);
        power2::lemma_pow2_adds(bits, single::UNIT as nat);
        assert(j * u == i * u + by * u) by (nonlinear_arith)
            requires
                j == i + by,
        ;
        assert(far * u >= 0) by (nonlinear_arith)
            requires
                far >= 0,
                u > 0,
        ;
        if let Some((prev, sample)) = self.span {
            let rise = sample.minus_spec(prev);
            if constants::of(constants::INTERPOLATION_EPSILON).lt_spec(rise.abs_spec()) {
                Self::share_is_in_unit_range(prev, sample);
                let q = sample.over_spec(rise);
                single_laws::value_of_one();
                single::rank_orders_values(q, constants::of(single::ONE_BITS));
                ieee::pattern_value_increases(single::HIDDEN as nat, 0, q.magnitude() as nat);
                assert(q.neg_spec().value() == -q.value());
                assert((far - 1) * u + u == far * u && (1 - far) * u - u == -(far * u))
                    by (nonlinear_arith);
                assert((1 - far) * u <= i * u <= (far - 1) * u) by (nonlinear_arith)
                    requires
                        1 - far <= i <= far - 1,
                        u > 0,
                ;
                assert((1 - far) * u <= j * u <= (far - 1) * u) by (nonlinear_arith)
                    requires
                        1 - far <= j <= far - 1,
                        u > 0,
                ;
                let r = bits + 149;
                single_laws::sum_is_close(Single::from_integer_spec(i), q.neg_spec(), r);
                single_laws::sum_is_close(Single::from_integer_spec(j), q.neg_spec(), r);
            }
        }
    }
}

/// Whether samples are numbers no larger than a quarter of the largest one, so
/// that their differences are numbers.
pub open spec fn moderate(samples: Seq<Single>) -> bool {
    forall|i: int| 0 <= i < samples.len() ==> single_laws::within(#[trigger] samples[i], 275)
}

impl CrossingState {
    /// Whether what the detector carries over is of moderate size, and its
    /// unconfirmed crossing is not before a position.
    pub open spec fn carries_from(self, low: int) -> bool {
        &&& self.prev matches Some(p) ==> single_laws::within(p, 275)
        &&& self.pending matches Some(c) ==> c.rises() && c.index >= low
    }

    proof fn crossings_rise(self, buffer: Seq<Single>, k: int, low: int)
        requires
            0 <= k <= buffer.len(),
            low <= 0,
            moderate(buffer),
            self.carries_from(low),
        ensures
            self.after(buffer, k).carries_from(low),
            forall|i: int|
                0 <= i < self.crossings(buffer, k).len() ==> (#[trigger] self.crossings(
                    buffer,
                    k,
                )[i]).rises() && self.crossings(buffer, k)[i].index >= low,
        decreases k,
    {
        if k > 0 {
            self.crossings_rise(buffer, k - 1, low);
            let state = self.after(buffer, k - 1);
            let sample = buffer[k - 1];
            if let Some(prev) = state.prev {
                single_laws::sum_within(sample, prev.neg_spec(), 275);
            }
        }
    }

    /// Where a signal is cut into two buffers does not move a crossing by more
    /// than the rounding of positions: the positions found in the second
    /// buffer, counted from the start of the first, are those found in one
    /// that holds both, to `2^(bits - 23)` of a sample where both together
    /// hold less than `2^bits` samples.
    pub proof fn split_keeps_positions(self, a: Seq<Single>, b: Seq<Single>, j: int, bits: nat)
        requires
            bits <= 24,
            a.len() + b.len() < power2::pow2(bits),
            a.len() + b.len() <= isize::MAX,
            moderate(a),
            moderate(b),
            self.pending is None,
            self.carries_from(0),
            0 <= j < self.advanced(a).crossings(b, b.len() as int).len(),
        ensures
            ({
                let u = power2::pow2(single::UNIT as nat);
                let before = self.crossings(a, a.len() as int).len();
                let cut = self.advanced(a).crossings(b, b.len() as int)[j].position();
                let whole = self.crossings(a + b, (a + b).len() as int)[before + j].position();
                &&& 0x80_0000 * (whole.value() - (cut.value() + a.len() * u)) <= power2::pow2(
                    bits,
                ) * u
                &&& 0x80_0000 * ((cut.value() + a.len() * u) - whole.value()) <= power2::pow2(
                    bits,
                ) * u
            }),
    {
        let n = a.len() as int;
        let m = b.len() as int;
        let next = self.advanced(a);
        self.split_keeps_crossings(a, b);
        self.crossings_rise(a, n, 0);
        next.crossings_rise(b, m, -n);
        self.crossings_come_in_order(a, n);
        next.crossings_come_in_order(b, m);
        let c = next.crossings(b, m)[j];
        let before = self.crossings(a, n).len();
        let whole = self.crossings(a + b, n + m);
        assert(whole[before + j] == c.shifted(n));
        c.counting_from_elsewhere_keeps_the_position(n, bits);
    }
}

impl CrossingState {
    /// Between two crossings the signal has to fall below the threshold and
    /// rise again, so that they are at least two samples apart.
    proof fn crossings_keep_apart(self, buffer: Seq<Single>, k: int)
        requires
            0 <= k <= buffer.len(),
            (Single { bits: 0 }).le_spec(self.hysteresis),
            self.pending matches Some(c) ==> c.index < 0,
        ensures
            self.after(buffer, k).hysteresis == self.hysteresis,
            ({
                let c = self.crossings(buffer, k);
                let state = self.after(buffer, k);
                &&& forall|i: int|
                    0 < i < c.len() ==> c[i - 1].index + 2 <= (#[trigger] c[i]).index
                &&& c.len() > 0 && state.armed ==> c.last().index + 2 <= k
                &&& c.len() > 0 ==> (state.pending matches Some(p) ==> c.last().index + 2
                    <= p.index)
            }),
        decreases k,
    {
        if k > 0 {
            self.crossings_keep_apart(buffer, k - 1);
            self.crossings_come_in_order(buffer, k - 1);
            let state = self.after(buffer, k - 1);
            let sample = buffer[k - 1];
            let c = self.crossings(buffer, k - 1);
            let all = self.crossings(buffer, k);
            assert(state.arms(sample) ==> !(Single { bits: 0 }).lt_spec(sample));
            assert(state.arms(sample) ==> !state.hysteresis.lt_spec(sample));
            if state.confirms(sample) {
                let next = state.confirmed(k - 1, sample);
                assert(all == c.push(next));
                assert(next.index <= k - 1);
                assert forall|i: int| 0 < i < all.len() implies all[i - 1].index + 2
                    <= (#[trigger] all[i]).index by {
                    if i < c.len() {
                        assert(all[i] == c[i] && all[i - 1] == c[i - 1]);
                    }
                }
            }
        }
    }

    /// The positions of the crossings of a buffer strictly increase.
    pub proof fn positions_increase(self, buffer: Seq<Single>, i: int)
        requires
            buffer.len() <= 0x80_0000,
            moderate(buffer),
            (Single { bits: 0 }).le_spec(self.hysteresis),
            self.pending matches Some(c) ==> c.index < 0,
            self.carries_from(-0x80_0000),
            0 < i < self.crossings(buffer, buffer.len() as int).len(),
        ensures
            self.crossings(buffer, buffer.len() as int)[i - 1].position().lt_spec(
                self.crossings(buffer, buffer.len() as int)[i].position(),
            ),
    {
        let n = buffer.len() as int;
        let c = self.crossings(buffer, n);
        self.crossings_rise(buffer, n, -0x80_0000);
        self.crossings_come_in_order(buffer, n);
        self.crossings_keep_apart(buffer, n);
        c[i - 1].position_is_in_step();
        c[i].position_is_in_step();
        let u = power2::pow2(single::UNIT as nat);
        power2::lemma_pow2_pos(single::UNIT as nat);
        let (x, y) = (c[i - 1].index, c[i].index);
        assert(x * u < (y - 1) * u) by (nonlinear_arith)
            requires
                x + 2 <= y,
                u > 0,
        ;
        single::rank_orders_values(c[i - 1].position(), c[i].position());
    }
}

impl CrossingAt {
    /// A crossing lies in the step that ends at its sample.
    pub proof fn position_is_in_step(self)
        requires
            self.rises(),
            -0x80_0000 <= self.index <= 0x80_0000,
        ensures
            self.position().finite(),
            (self.index - 1) * power2::pow2(single::UNIT as nat) <= self.position().value()
                <= self.index * power2::pow2(single::UNIT as nat),
    {
        let u = power2::pow2(single::UNIT as nat) as int;
        let i = self.index;
        power2::lemma2_to64();
        power2::lemma_pow2_pos(single::UNIT as nat);
        power2::lemma_pow2_adds(24, single::UNIT as nat);
        single_laws::count_is_exact(i);
        single_laws::count_is_exact(i - 1);
        assert((i - 1) * u == i * u - u) by (nonlinear_arith);
        assert(-(0x80_0001 * u) <= (i - 1) * u && i * u <= 0x80_0000 * u) by (nonlinear_arith)
            requires
                -0x80_0000 <= i <= 0x80_0000,
                u > 0,
        ;
        if let Some((prev, sample)) = self.span {
            let rise = sample.minus_spec(prev);
            if constants::of(constants::INTERPOLATION_EPSILON).lt_spec(rise.abs_spec()) {
                Self::share_is_in_unit_range(prev, sample);
                let q = sample.over_spec(rise);
                single_laws::value_of_one();
                single::rank_orders_values(q, constants::of(single::ONE_BITS));
                ieee::pattern_value_increases(single::HIDDEN as nat, 0, q.magnitude() as nat);
                assert(q.neg_spec().value() == -q.value());
                let at = Single::from_integer_spec(i);
                single_laws::sum_is_close(at, q.neg_spec(), 173);
                single_laws::sum_is_at_least(
                    at,
                    q.neg_spec(),
                    Single::from_integer_spec(i - 1),
                );
                single_laws::sum_is_at_most(at, q.neg_spec(), at);
            }
        }
    }
}

impl View for ZeroCrossingDetector {
    type V = CrossingState;

    closed spec fn view(&self) -> CrossingState {
        CrossingState {
            hysteresis: self.hysteresis,
            armed: self.armed,
            prev: self.prev_sample,
            pending: match self.pending_crossing {
                Some(c) => Some(c@),
                None => None,
            },
        }
    }
}

impl Crossing {
    /// Where the signal passed through zero, in samples from the start of the
    /// buffer that confirmed the crossing.
    pub fn position(&self) -> (p: Single)
        ensures
            p == self@.position(),
    {
        let at: Single = Single::from_index(self.index as i128);
        match self.span {
            Some((prev, sample)) => {
                let rise: Single = sample.minus(prev);
                if rise.abs().above(Single::from_bits(constants::INTERPOLATION_EPSILON)) {
                    at.minus(sample.over(rise))
                } else {
                    at
                }
            },
            None => at,
        }
    }
}

impl ZeroCrossingDetector {
    /// Create a new zero-crossing detector
    ///
    /// # Arguments
    /// * `hysteresis` - Hysteresis threshold (typically 0.01-0.1)
    pub fn new(hysteresis: Single) -> (d: ZeroCrossingDetector)
        ensures
            d@ == (CrossingState { hysteresis, armed: false, prev: None, pending: None }),
    {
        ZeroCrossingDetector {
            hysteresis,
            armed: false,
            prev_sample: None,
            pending_crossing: None,
        }
    }

    /// Detect a zero crossing in the next sample
    ///
    /// Returns `true` if a rising-edge crossing is detected (transition from
    /// negative to positive). The crossing must exceed the hysteresis threshold
    /// on both sides to trigger.
    ///
    /// # Arguments
    /// * `sample` - The next audio sample to process
    pub fn detect_crossing(&mut self, sample: Single) -> (crossed: bool)
        ensures
            crossed == old(self)@.confirms(sample),
            final(self)@ == (CrossingState {
                armed: old(self)@.armed_at(sample) && !crossed,
                ..old(self)@
            }),
    {
        if sample.less_than(self.hysteresis.negated()) {
            self.armed = true;
        }
        if self.armed && sample.above(self.hysteresis) {
            self.armed = false;
            return true;
        }
        false
    }

    /// Find all zero crossings in a buffer
    ///
    /// Returns the rising-edge crossings that the buffer confirms, each with
    /// the two samples to interpolate between.
    ///
    /// # Arguments
    /// * `buffer` - Audio samples to process
    pub fn find_all_crossings(&mut self, buffer: &[Single]) -> (crossings: Vec<Crossing>)
        requires
            buffer.len() <= isize::MAX,
        ensures
            final(self)@ == old(self)@.advanced(buffer@),
            crossing_list(crossings@) == old(self)@.crossings(buffer@, buffer.len() as int),
    {
        let mut crossings: Vec<Crossing> = Vec::new();
        let n: usize = buffer.len();
        let ghost start = self@;
        let mut i: usize = 0;
        while i < n
            invariant
                i <= n,
                n == buffer.len(),
                n <= isize::MAX,
                self@ == start.after(buffer@, i as int),
                crossing_list(crossings@) == start.crossings(buffer@, i as int),
            decreases n - i,
        {
            let sample: Single = buffer[i];
            let ghost before = self@;
            if sample.less_than(self.hysteresis.negated()) {
                self.armed = true;
                self.pending_crossing = None;
            }
            if self.armed && self.pending_crossing.is_none() && sample.above(Single::zero()) {
                if let Some(prev) = self.prev_sample {
                    if prev.at_most(Single::zero()) {
                        // A crossing straddling the buffer boundary lies
                        // between the previous buffer's last sample and the
                        // first one of this buffer.
                        self.pending_crossing = Some(
                            Crossing { index: i as isize, span: Some((prev, sample)) },
                        );
                    }
                }
            }
            assert(self@.pending == before.pending_at(i as int, sample));
            let ghost found = crossings@;
            if self.armed && sample.above(self.hysteresis) {
                let crossing: Crossing = match self.pending_crossing {
                    Some(c) => c,
                    None => Crossing { index: i as isize, span: None },
                };
                crossings.push(crossing);
                assert(crossing_list(crossings@) =~= crossing_list(found).push(crossing@));
                self.armed = false;
                self.pending_crossing = None;
            }
            self.prev_sample = Some(sample);
            i = i + 1;
        }
        // Re-express an unconfirmed crossing relative to the next buffer.
        if let Some(c) = self.pending_crossing {
            let index: isize = if c.index >= isize::MIN + n as isize {
                c.index - n as isize
            } else {
                isize::MIN
            };
            self.pending_crossing = Some(Crossing { index, span: c.span });
        }
        crossings
    }
}

} // verus!
