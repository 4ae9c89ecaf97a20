//! A grid of configurations and stimuli.
//!
//! The generator and the labels on the axes live in one place, so a sweep
//! cannot quietly disagree with another one about what an axis means.
use crate::config::{BearingConfig, RdfConfig, RotationFrequency};
use crate::constants;
use crate::double::Double;
use crate::fields;
use crate::processing::TickResult;
use crate::signal_processing::ordering;
use crate::signal_processing::ordering::Ranked;
use crate::simulation::signal::SignalImpairment;
use crate::single::Single;
use crate::text;
use crate::tools::compare;
use crate::tools::settings;
use crate::tools::settings::Key;
use crate::tools::statistics;
use vstd::prelude::*;

verus! {

/// The noise of a stimulus where none is given (0.8).
pub const DEFAULT_DOPPLER_NOISE: u32 = 0x3f4c_cccd;

/// The bearing of a stimulus where none is given (200).
pub const DEFAULT_BEARING: u32 = 0x4348_0000;

/// The least width of a column.
pub const MIN_WIDTH: usize = 6;

/// Whether a setting can be swept.
pub open spec fn swept(key: Key) -> bool {
    &&& key != Key::SampleRate
    &&& key != Key::TimingAdjustment
    &&& key != Key::HighpassTransition
    &&& key != Key::PulseAmplitude
    &&& key != Key::InitialFrequency
}

/// Whether a setting can be swept.
pub fn is_swept(key: Key) -> (b: bool)
    ensures
        b == swept(key),
{
    key != Key::SampleRate && key != Key::TimingAdjustment && key != Key::HighpassTransition
        && key != Key::PulseAmplitude && key != Key::InitialFrequency
}

/// A value of an axis, with the number that it reads as, where it does.
pub struct AxisValue {
    pub text: String,
    pub number: Option<Single>,
}

/// An axis of a sweep.
pub struct Axis {
    pub key: String,
    pub values: Vec<AxisValue>,
}

/// The values in a list, without the space around them.
pub open spec fn listed(values: Seq<char>) -> Seq<Seq<char>> {
    fields::pieces(values, ',').map_values(|v: Seq<char>| text::trimmed(v))
}

/// Whether an axis has a key and values.
pub open spec fn is_axis(axis: Seq<char>, key: Seq<char>, values: Seq<Seq<char>>) -> bool {
    exists|list: Seq<char>|
        #[trigger] compare::assigns(axis, key, list) && values == listed(list)
}

/// Split an axis, written as `key=v1,v2,...`, into its key and its values.
pub fn split_axis(axis: &str) -> (r: Result<(String, Vec<String>), String>)
    ensures
        match r {
            Ok((key, values)) => is_axis(axis@, key@, fields::contents(values@)),
            Err(m) => !axis@.contains('=') && m@ == "expected key=v1,v2,..., got "@ + axis@,
        },
{
    match fields::split_once(axis, '=') {
        None => {
            let mut m: String = text::owned("expected key=v1,v2,..., got ");
            m.append(axis);
            Err(m)
        },
        Some((key, list)) => {
            let pieces: Vec<String> = fields::split(list.as_str(), ',');
            let ghost all = listed(list@);
            let mut values: Vec<String> = Vec::new();
            let mut i: usize = 0;
            while i < pieces.len()
                invariant
                    i <= pieces.len(),
                    fields::contents(pieces@) == fields::pieces(list@, ','),
                    all == listed(list@),
                    fields::contents(values@) == all.take(i as int),
                decreases pieces.len() - i,
            {
                let ghost before = fields::contents(values@);
                assert(fields::contents(pieces@)[i as int] == pieces@[i as int]@);
                assert(all.len() == pieces@.len());
                values.push(text::owned(text::trim(pieces[i].as_str())));
                i = i + 1;
                assert(fields::contents(values@) =~= before.push(values@.last()@));
                assert(fields::contents(values@) =~= all.take(i as int));
            }
            assert(fields::contents(pieces@).len() == pieces@.len());
            assert(fields::contents(values@) =~= all);
            assert(compare::assigns(axis@, key@, list@));
            assert(is_axis(axis@, key@, fields::contents(values@)));
            Ok((key, values))
        },
    }
}

/// All choices of one index per axis, the last axis turning fastest.
pub open spec fn product(sizes: Seq<usize>) -> Seq<Seq<usize>>
    decreases sizes.len(),
{
    if sizes.len() == 0 {
        seq![Seq::empty()]
    } else {
        let front = product(sizes.drop_last());
        let n = sizes.last() as int;
        Seq::new((front.len() * n) as nat, |i: int| front[i / n].push((i % n) as usize))
    }
}

/// The contents of choices.
pub open spec fn choices(combinations: Seq<Vec<usize>>) -> Seq<Seq<usize>> {
    combinations.map_values(|c: Vec<usize>| c@)
}

fn extended(prefix: &Vec<usize>, v: usize) -> (r: Vec<usize>)
    ensures
        r@ == prefix@.push(v),
{
    let mut r: Vec<usize> = Vec::new();
    let mut i: usize = 0;
    while i < prefix.len()
        invariant
            i <= prefix.len(),
            r@ == prefix@.take(i as int),
        decreases prefix.len() - i,
    {
        r.push(prefix[i]);
        i = i + 1;
        assert(r@ =~= prefix@.take(i as int));
    }
    r.push(v);
    assert(r@ =~= prefix@.push(v));
    r
}

/// The index of a choice made of a prefix and a last index.
proof fn mixed_index(a: int, v: int, n: int, len: int)
    requires
        0 <= a < len,
        0 <= v < n,
    ensures
        0 <= a * n + v < len * n,
        (a * n + v) / n == a,
        (a * n + v) % n == v,
{
    assert(0 <= a * n + v < len * n) by (nonlinear_arith)
        requires
            0 <= a < len,
            0 <= v < n,
    ;
    vstd::arithmetic::div_mod::lemma_fundamental_div_mod_converse(a * n + v, n, a, v);
}

/// Append one index to a prefix in every way.
fn extend_all(next: &mut Vec<Vec<usize>>, prefix: &Vec<usize>, n: usize)
    ensures
        choices(final(next)@) == choices(old(next)@) + Seq::new(
            n as nat,
            |v: int| prefix@.push(v as usize),
        ),
{
    let ghost before = choices(next@);
    let mut v: usize = 0;
    assert(choices(next@) =~= before + Seq::new(0, |v: int| prefix@.push(v as usize)));
    while v < n
        invariant
            v <= n,
            choices(next@) == before + Seq::new(v as nat, |v: int| prefix@.push(v as usize)),
        decreases n - v,
    {
        let ghost so_far = choices(next@);
        next.push(extended(prefix, v));
        assert(choices(next@) =~= so_far.push(prefix@.push(v)));
        v = v + 1;
        assert(choices(next@) =~= before + Seq::new(
            v as nat,
            |v: int| prefix@.push(v as usize),
        ));
    }
}

/// All choices of one index per axis, in the order in which a table reads.
pub fn combinations(sizes: &[usize]) -> (r: Vec<Vec<usize>>)
    ensures
        choices(r@) == product(sizes@),
{
    let mut r: Vec<Vec<usize>> = Vec::new();
    r.push(Vec::new());
    let mut k: usize = 0;
    assert(sizes@.take(0) =~= Seq::<usize>::empty());
    assert(choices(r@) =~= product(sizes@.take(0)));
    while k < sizes.len()
        invariant
            k <= sizes.len(),
            choices(r@) == product(sizes@.take(k as int)),
        decreases sizes.len() - k,
    {
        let n: usize = sizes[k];
        let ghost front = choices(r@);
        let ghost goal = product(sizes@.take(k + 1));
        proof {
            assert(sizes@.take(k + 1).drop_last() =~= sizes@.take(k as int));
            assert(front.len() * n >= 0) by (nonlinear_arith)
                requires
                    front.len() >= 0,
                    n >= 0,
            ;
        }
        let mut next: Vec<Vec<usize>> = Vec::new();
        let mut a: usize = 0;
        assert(0 * n == 0) by (nonlinear_arith);
        assert(choices(next@) =~= goal.take(0));
        while a < r.len()
            invariant
                a <= r.len(),
                front == choices(r@),
                goal == Seq::new(
                    (front.len() * n) as nat,
                    |i: int| front[i / (n as int)].push((i % (n as int)) as usize),
                ),
                choices(next@) == goal.take(a * n),
                0 <= a * n <= front.len() * n,
                goal.len() == front.len() * n,
            decreases r.len() - a,
        {
            let ghost so_far = choices(next@);
            extend_all(&mut next, &r[a], n);
            proof {
                assert((a + 1) * n == a * n + n) by (nonlinear_arith);
                assert((a + 1) * n <= front.len() * n) by (nonlinear_arith)
                    requires
                        a + 1 <= front.len(),
                        n >= 0,
                ;
                assert(front[a as int] == r@[a as int]@);
                let added = Seq::new(n as nat, |v: int| r@[a as int]@.push(v as usize));
                assert forall|i: int| 0 <= i < (a + 1) * n implies (so_far + added)[i]
                    == goal[i] by {
                    if i >= a * n {
                        mixed_index(a as int, i - a * n, n as int, front.len() as int);
                    }
                }
                assert(choices(next@) =~= goal.take((a + 1) * n));
            }
            a = a + 1;
        }
        assert(choices(next@) =~= goal) by {
            assert(r@.len() == front.len());
        }
        r = next;
        k = k + 1;
    }
    assert(sizes@.take(k as int) =~= sizes@);
    r
}

/// How many choices there are: the sizes multiplied.
pub open spec fn size_product(sizes: Seq<usize>) -> nat
    decreases sizes.len(),
{
    if sizes.len() == 0 {
        1
    } else {
        size_product(sizes.drop_last()) * sizes.last() as nat
    }
}

/// There are as many choices as the sizes multiplied, and each of them holds
/// one index for every axis, within its size.
pub proof fn choices_cover_the_grid(sizes: Seq<usize>, i: int, axis: int)
    requires
        0 <= i < product(sizes).len(),
        0 <= axis < sizes.len(),
    ensures
        product(sizes).len() == size_product(sizes),
        product(sizes)[i].len() == sizes.len(),
        product(sizes)[i][axis] < sizes[axis],
    decreases sizes.len(),
{
    product_len(sizes);
    let front = product(sizes.drop_last());
    let n = sizes.last() as int;
    product_len(sizes.drop_last());
    assert(n > 0) by (nonlinear_arith)
        requires
            0 <= i < front.len() * n,
    ;
    assert(0 <= i / n < front.len()) by (nonlinear_arith)
        requires
            0 <= i < front.len() * n,
            n > 0,
    ;
    vstd::arithmetic::div_mod::lemma_mod_bound(i, n);
    choice_len(sizes.drop_last(), i / n);
    if axis < sizes.len() - 1 {
        choices_cover_the_grid(sizes.drop_last(), i / n, axis);
    }
}

proof fn product_len(sizes: Seq<usize>)
    ensures
        product(sizes).len() == size_product(sizes),
    decreases sizes.len(),
{
    if sizes.len() > 0 {
        product_len(sizes.drop_last());
        let a = product(sizes.drop_last()).len();
        let n = sizes.last() as int;
        assert(a * n >= 0) by (nonlinear_arith)
            requires
                a >= 0,
                n >= 0,
        ;
    }
}

proof fn choice_len(sizes: Seq<usize>, i: int)
    requires
        0 <= i < product(sizes).len(),
    ensures
        product(sizes)[i].len() == sizes.len(),
    decreases sizes.len(),
{
    if sizes.len() > 0 {
        let front = product(sizes.drop_last());
        let n = sizes.last() as int;
        assert(n > 0) by (nonlinear_arith)
            requires
                0 <= i < front.len() * n,
        ;
        assert(0 <= i / n < front.len()) by (nonlinear_arith)
            requires
                0 <= i < front.len() * n,
                n > 0,
        ;
        choice_len(sizes.drop_last(), i / n);
    }
}

/// The stimulus for one cell. Two cells sharing this share a signal, which is
/// what keeps a comparison across configuration axes honest.
#[derive(Debug, Clone, Copy, PartialEq, Eq, Structural)]
pub struct Stimulus {
    pub doppler_noise: Single,
    pub north_noise: Single,
    pub bearing: Single,
    pub rotation_hz: Single,
    pub pulse_amplitude: Single,
}

/// A stimulus with a quantity set.
pub open spec fn set_stimulus(s: Stimulus, key: Seq<char>, number: Option<Single>) -> Option<
    Option<Stimulus>,
> {
    let stimulus = |f: spec_fn(Single) -> Stimulus|
        match number {
            Some(x) => Some(Some(f(x))),
            None => Some(None),
        };
    if key == "doppler_noise"@ {
        stimulus(|x: Single| Stimulus { doppler_noise: x, ..s })
    } else if key == "north_noise"@ {
        stimulus(|x: Single| Stimulus { north_noise: x, ..s })
    } else if key == "bearing"@ {
        stimulus(|x: Single| Stimulus { bearing: x, ..s })
    } else if key == "rotation_hz"@ {
        stimulus(|x: Single| Stimulus { rotation_hz: x, ..s })
    } else if key == "pulse_amplitude"@ {
        stimulus(|x: Single| Stimulus { pulse_amplitude: x, ..s })
    } else {
        None
    }
}

/// A configuration with a setting of an axis set: nothing where the key is no
/// axis of configuration, no configuration where the value is none of its
/// kind.
pub open spec fn set_config(
    config: RdfConfig,
    key: Seq<char>,
    value: Seq<char>,
    number: Option<Single>,
) -> Option<Option<RdfConfig>> {
    match Key::named(key) {
        Some(k) if swept(k) => match settings::value_spec(k.kind_spec(), value, number) {
            Some(v) => Some(Some(k.put_spec(config, v))),
            None => Some(None),
        },
        _ => None,
    }
}

/// Why a number of a stimulus is refused.
pub open spec fn stimulus_refusal(key: Seq<char>, value: Seq<char>) -> Seq<char> {
    settings::refusal_spec(settings::Kind::Number, key, value)
}

impl Stimulus {
    pub open spec fn defaults(config: RdfConfig) -> Stimulus {
        Stimulus {
            doppler_noise: constants::of(DEFAULT_DOPPLER_NOISE),
            north_noise: constants::of(0),
            bearing: constants::of(DEFAULT_BEARING),
            rotation_hz: config.doppler.expected_freq,
            pulse_amplitude: config.north_tick.expected_pulse_amplitude,
        }
    }

    /// The stimulus where no axis says otherwise.
    pub fn default_for(config: &RdfConfig) -> (s: Stimulus)
        ensures
            s == Self::defaults(*config),
    {
        Stimulus {
            doppler_noise: Single::from_bits(DEFAULT_DOPPLER_NOISE),
            north_noise: Single::zero(),
            bearing: Single::from_bits(DEFAULT_BEARING),
            rotation_hz: config.doppler.expected_freq,
            pulse_amplitude: config.north_tick.expected_pulse_amplitude,
        }
    }

    /// Set a quantity, where the key names one.
    pub fn apply(&mut self, key: &str, value: &str, number: Option<Single>) -> (r: Result<
        bool,
        String,
    >)
        ensures
            match set_stimulus(*old(self), key@, number) {
                None => r == Ok::<bool, String>(false) && *final(self) == *old(self),
                Some(Some(s)) => r == Ok::<bool, String>(true) && *final(self) == s,
                Some(None) => {
                    &&& *final(self) == *old(self)
                    &&& r matches Err(m) && m@ == stimulus_refusal(key@, value@)
                },
            },
    {
        let doppler_noise: bool = text::same(key, "doppler_noise");
        let north_noise: bool = text::same(key, "north_noise");
        let bearing: bool = text::same(key, "bearing");
        let rotation: bool = text::same(key, "rotation_hz");
        let amplitude: bool = text::same(key, "pulse_amplitude");
        if !(doppler_noise || north_noise || bearing || rotation || amplitude) {
            return Ok(false);
        }
        match number {
            None => Err(settings::refusal(settings::Kind::Number, key, value)),
            Some(x) => {
                if doppler_noise {
                    self.doppler_noise = x;
                } else if north_noise {
                    self.north_noise = x;
                } else if bearing {
                    self.bearing = x;
                } else if rotation {
                    self.rotation_hz = x;
                } else {
                    self.pulse_amplitude = x;
                }
                Ok(true)
            },
        }
    }

    /// What the channels of the stimulus carry.
    pub fn impairment(&self) -> (s: SignalImpairment)
        ensures
            s == (SignalImpairment {
                passband_noise_to_tone: self.doppler_noise,
                north_noise_rms: self.north_noise,
                north_pulse_amplitude: self.pulse_amplitude,
                ..SignalImpairment::at_ratio_spec(constants::of(DEFAULT_DOPPLER_NOISE))
            }),
    {
        let mut s: SignalImpairment = SignalImpairment::representative();
        s.passband_noise_to_tone = self.doppler_noise;
        s.north_noise_rms = self.north_noise;
        s.north_pulse_amplitude = self.pulse_amplitude;
        s
    }
}

/// Set a setting, where the key names one that is swept.
pub fn apply_config(
    config: &mut RdfConfig,
    key: &str,
    value: &str,
    number: Option<Single>,
) -> (r: Result<bool, String>)
    ensures
        match set_config(*old(config), key@, value@, number) {
            None => r == Ok::<bool, String>(false) && *final(config) == *old(config),
            Some(Some(c)) => r == Ok::<bool, String>(true) && *final(config) == c,
            Some(None) => {
                &&& *final(config) == *old(config)
                &&& r matches Err(m) && m@ == settings::refusal_spec(
                    Key::named(key@)->0.kind_spec(),
                    key@,
                    value@,
                )
            },
        },
{
    if let Some(k) = Key::of_name(key) {
        proof {
            Key::names_settings(key@);
        }
        if is_swept(k) {
            return match settings::set(config, k, value, number) {
                Ok(()) => Ok(true),
                Err(m) => Err(m),
            };
        }
    }
    Ok(false)
}

/// What a cell is made of.
#[derive(Debug, Clone, Copy)]
pub struct Cell {
    pub config: RdfConfig,
    pub stimulus: Stimulus,
}

/// The value that a choice takes on an axis.
pub open spec fn chosen(axes: Seq<Axis>, choice: Seq<usize>, k: int) -> AxisValue {
    axes[k].values@[choice[k] as int]
}

/// Whether a choice takes a value on every axis.
pub open spec fn fits(axes: Seq<Axis>, choice: Seq<usize>) -> bool {
    &&& choice.len() == axes.len()
    &&& forall|k: int| 0 <= k < axes.len() ==> #[trigger] choice[k] < axes[k].values@.len()
}

/// The stimulus of a choice on the first `k` axes, or why a number is refused.
pub open spec fn stimulus_of(axes: Seq<Axis>, choice: Seq<usize>, start: Stimulus, k: int) -> Result<
    Stimulus,
    Seq<char>,
>
    decreases k,
{
    if k <= 0 {
        Ok(start)
    } else {
        match stimulus_of(axes, choice, start, k - 1) {
            Err(m) => Err(m),
            Ok(s) => {
                let value = chosen(axes, choice, k - 1);
                match set_stimulus(s, axes[k - 1].key@, value.number) {
                    None => Ok(s),
                    Some(Some(r)) => Ok(r),
                    Some(None) => Err(stimulus_refusal(axes[k - 1].key@, value.text@)),
                }
            },
        }
    }
}

/// The stimulus of a choice.
pub fn stimulus_for(axes: &[Axis], choice: &[usize]) -> (r: Result<Stimulus, String>)
    requires
        fits(axes@, choice@),
    ensures
        match stimulus_of(
            axes@,
            choice@,
            Stimulus::defaults(RdfConfig::defaults()),
            axes@.len() as int,
        ) {
            Ok(s) => r == Ok::<Stimulus, String>(s),
            Err(m) => r matches Err(t) && t@ == m,
        },
{
    let config: RdfConfig = RdfConfig::default();
    let mut stimulus: Stimulus = Stimulus::default_for(&config);
    let ghost start = stimulus;
    let mut k: usize = 0;
    while k < axes.len()
        invariant
            k <= axes.len(),
            fits(axes@, choice@),
            start == Stimulus::defaults(RdfConfig::defaults()),
            stimulus_of(axes@, choice@, start, k as int) == Ok::<Stimulus, Seq<char>>(stimulus),
        decreases axes.len() - k,
    {
        let value: &AxisValue = &axes[k].values[choice[k]];
        assert(*value == chosen(axes@, choice@, k as int));
        match stimulus.apply(axes[k].key.as_str(), value.text.as_str(), value.number) {
            Ok(_) => {},
            Err(m) => {
                proof {
                    refusal_stays(axes@, choice@, start, k + 1, axes@.len() as int);
                }
                return Err(m);
            },
        }
        k = k + 1;
    }
    Ok(stimulus)
}

/// Once a number is refused there is no stimulus any more.
proof fn refusal_stays(axes: Seq<Axis>, choice: Seq<usize>, start: Stimulus, k: int, n: int)
    requires
        0 <= k <= n,
        stimulus_of(axes, choice, start, k) is Err,
    ensures
        stimulus_of(axes, choice, start, n) == stimulus_of(axes, choice, start, k),
    decreases n - k,
{
    if k < n {
        refusal_stays(axes, choice, start, k + 1, n);
    }
}

/// Why a key that names no axis is refused.
pub open spec fn unknown_axis_spec(key: Seq<char>) -> Seq<char> {
    key + " is not an axis this sweeps; --list-axes lists them"@
}

/// The configuration of a choice on the first `k` axes, or why a value is
/// refused or a key names no axis.
pub open spec fn config_of(
    axes: Seq<Axis>,
    choice: Seq<usize>,
    start: RdfConfig,
    stimulus: Stimulus,
    k: int,
) -> Result<RdfConfig, Seq<char>>
    decreases k,
{
    if k <= 0 {
        Ok(start)
    } else {
        match config_of(axes, choice, start, stimulus, k - 1) {
            Err(m) => Err(m),
            Ok(c) => {
                let key = axes[k - 1].key@;
                let value = chosen(axes, choice, k - 1);
                match set_config(c, key, value.text@, value.number) {
                    Some(Some(r)) => Ok(r),
                    Some(None) => Err(
                        settings::refusal_spec(
                            Key::named(key)->0.kind_spec(),
                            key,
                            value.text@,
                        ),
                    ),
                    None => if set_stimulus(stimulus, key, value.number) is Some {
                        Ok(c)
                    } else {
                        Err(unknown_axis_spec(key))
                    },
                }
            },
        }
    }
}

/// The configuration with at least one bearing in its smoothing window.
pub open spec fn smoothed(config: RdfConfig) -> RdfConfig {
    RdfConfig {
        bearing: BearingConfig {
            smoothing_window: if config.bearing.smoothing_window > 1 {
                config.bearing.smoothing_window
            } else {
                1
            },
            ..config.bearing
        },
        ..config
    }
}

/// What a choice makes of a cell.
///
/// The stimulus is taken first, and the rotation is retuned to it before any
/// setting is changed: retuning rewrites several settings from the defaults,
/// and would silently discard an axis that touched one of them.
pub open spec fn cell_of(axes: Seq<Axis>, choice: Seq<usize>) -> Result<Cell, Seq<char>> {
    let defaults = RdfConfig::defaults();
    match stimulus_of(axes, choice, Stimulus::defaults(defaults), axes.len() as int) {
        Err(m) => Err(m),
        Ok(stimulus) => {
            let tuned = defaults.retuned(RotationFrequency::hz_spec(stimulus.rotation_hz));
            match config_of(axes, choice, tuned, stimulus, axes.len() as int) {
                Err(m) => Err(m),
                Ok(c) => Ok(Cell { config: smoothed(c), stimulus }),
            }
        },
    }
}

/// Why a key is refused.
pub fn unknown_axis(key: &str) -> (m: String)
    ensures
        m@ == unknown_axis_spec(key@),
{
    let mut m: String = text::owned(key);
    m.append(" is not an axis this sweeps; --list-axes lists them");
    m
}

/// Once a value is refused there is no configuration any more.
proof fn no_config_stays(
    axes: Seq<Axis>,
    choice: Seq<usize>,
    start: RdfConfig,
    stimulus: Stimulus,
    k: int,
    n: int,
)
    requires
        0 <= k <= n,
        config_of(axes, choice, start, stimulus, k) is Err,
    ensures
        config_of(axes, choice, start, stimulus, n) == config_of(
            axes,
            choice,
            start,
            stimulus,
            k,
        ),
    decreases n - k,
{
    if k < n {
        no_config_stays(axes, choice, start, stimulus, k + 1, n);
    }
}

/// The configuration and the stimulus of a choice.
pub fn cell_for(axes: &[Axis], choice: &[usize]) -> (r: Result<Cell, String>)
    requires
        fits(axes@, choice@),
    ensures
        match cell_of(axes@, choice@) {
            Ok(c) => r == Ok::<Cell, String>(c),
            Err(m) => r matches Err(t) && t@ == m,
        },
{
    let stimulus: Stimulus = match stimulus_for(axes, choice) {
        Ok(s) => s,
        Err(m) => {
            return Err(m);
        },
    };
    let mut config: RdfConfig = RdfConfig::default();
    config.apply_rotation(RotationFrequency::from_hz(stimulus.rotation_hz));
    let ghost start = config;
    let mut k: usize = 0;
    while k < axes.len()
        invariant
            k <= axes.len(),
            fits(axes@, choice@),
            stimulus_of(
                axes@,
                choice@,
                Stimulus::defaults(RdfConfig::defaults()),
                axes@.len() as int,
            ) == Ok::<Stimulus, Seq<char>>(stimulus),
            start == RdfConfig::defaults().retuned(
                RotationFrequency::hz_spec(stimulus.rotation_hz),
            ),
            config_of(axes@, choice@, start, stimulus, k as int) == Ok::<RdfConfig, Seq<char>>(
                config,
            ),
        decreases axes.len() - k,
    {
        let value: &AxisValue = &axes[k].values[choice[k]];
        let key: &str = axes[k].key.as_str();
        assert(*value == chosen(axes@, choice@, k as int));
        match apply_config(&mut config, key, value.text.as_str(), value.number) {
            Err(m) => {
                proof {
                    no_config_stays(
                        axes@,
                        choice@,
                        start,
                        stimulus,
                        k + 1,
                        axes@.len() as int,
                    );
                }
                return Err(m);
            },
            Ok(applied) => {
                if !applied && !is_stimulus(key) {
                    proof {
                        no_config_stays(
                            axes@,
                            choice@,
                            start,
                            stimulus,
                            k + 1,
                            axes@.len() as int,
                        );
                    }
                    return Err(unknown_axis(key));
                }
            },
        }
        k = k + 1;
    }
    if config.bearing.smoothing_window < 1 {
        config.bearing.smoothing_window = 1;
    }
    Ok(Cell { config, stimulus })
}

/// Whether a key names a quantity of the stimulus.
pub fn is_stimulus(key: &str) -> (b: bool)
    ensures
        forall|s: Stimulus, number: Option<Single>|
            b == #[trigger] set_stimulus(s, key@, number) is Some,
{
    text::same(key, "doppler_noise") || text::same(key, "north_noise") || text::same(
        key,
        "bearing",
    ) || text::same(key, "rotation_hz") || text::same(key, "pulse_amplitude")
}

/// A cell with the bits of its stimulus.
#[derive(Debug, Clone, Copy, PartialEq, Eq)]
pub struct CellKey {
    pub stimulus: Stimulus,
    pub index: usize,
}

/// The place of a stimulus in an order by its bits.
pub open spec fn stimulus_rank(s: Stimulus) -> int {
    let w = 0x1_0000_0000int;
    let a = s.doppler_noise.bits as int;
    let b = a * w + s.north_noise.bits as int;
    let c = b * w + s.bearing.bits as int;
    let d = c * w + s.rotation_hz.bits as int;
    d * w + s.pulse_amplitude.bits as int
}

impl Ranked for CellKey {
    open spec fn order(self) -> int {
        stimulus_rank(self.stimulus)
    }

    fn precedes(self, other: CellKey) -> (b: bool) {
        let x: Stimulus = self.stimulus;
        let y: Stimulus = other.stimulus;
        if x.doppler_noise.bits != y.doppler_noise.bits {
            return x.doppler_noise.bits < y.doppler_noise.bits;
        }
        if x.north_noise.bits != y.north_noise.bits {
            return x.north_noise.bits < y.north_noise.bits;
        }
        if x.bearing.bits != y.bearing.bits {
            return x.bearing.bits < y.bearing.bits;
        }
        if x.rotation_hz.bits != y.rotation_hz.bits {
            return x.rotation_hz.bits < y.rotation_hz.bits;
        }
        x.pulse_amplitude.bits < y.pulse_amplitude.bits
    }
}

/// Stimuli with their indices.
pub open spec fn keyed(stimuli: Seq<Stimulus>) -> Seq<CellKey> {
    Seq::new(stimuli.len(), |i: int| CellKey { stimulus: stimuli[i], index: i as usize })
}

/// The order in which cells are worked through: grouped by stimulus, so that
/// each signal is built once however the axes were ordered.
pub fn working_order(stimuli: &[Stimulus]) -> (order: Vec<CellKey>)
    ensures
        order@ == ordering::sorted(keyed(stimuli@)),
{
    let mut keys: Vec<CellKey> = Vec::new();
    let mut i: usize = 0;
    while i < stimuli.len()
        invariant
            i <= stimuli.len(),
            keys@ == keyed(stimuli@).take(i as int),
        decreases stimuli.len() - i,
    {
        keys.push(CellKey { stimulus: stimuli[i], index: i });
        i = i + 1;
        assert(keys@ =~= keyed(stimuli@).take(i as int));
    }
    assert(keys@ =~= keyed(stimuli@));
    ordering::sort(keys.as_slice())
}

/// Cells that share a stimulus are worked through one after another: nothing
/// else comes between two of them.
pub proof fn shared_stimuli_are_adjacent(stimuli: Seq<Stimulus>, i: int, j: int, k: int)
    requires
        0 <= i <= j <= k < ordering::sorted(keyed(stimuli)).len(),
        ordering::sorted(keyed(stimuli))[i].stimulus == ordering::sorted(
            keyed(stimuli),
        )[k].stimulus,
    ensures
        ordering::sorted(keyed(stimuli))[j].stimulus == ordering::sorted(
            keyed(stimuli),
        )[i].stimulus,
{
    let s = ordering::sorted(keyed(stimuli));
    ordering::sorted_is_ascending(keyed(stimuli));
    assert(s[i].order() <= s[j].order() && s[j].order() <= s[k].order());
    rank_is_faithful(s[i].stimulus, s[j].stimulus);
}

/// A number and a last word of 32 bits are known from the two put together.
proof fn words_part(a: int, x: u32, b: int, y: u32)
    requires
        a * 0x1_0000_0000 + x as int == b * 0x1_0000_0000 + y as int,
    ensures
        a == b,
        x == y,
{
}

/// Stimuli with the same place are the same.
proof fn rank_is_faithful(x: Stimulus, y: Stimulus)
    requires
        stimulus_rank(x) == stimulus_rank(y),
    ensures
        x == y,
{
    let w = 0x1_0000_0000int;
    let (a, p) = (x.doppler_noise.bits as int, y.doppler_noise.bits as int);
    let (b, q) = (a * w + x.north_noise.bits as int, p * w + y.north_noise.bits as int);
    let (c, r) = (b * w + x.bearing.bits as int, q * w + y.bearing.bits as int);
    let (d, s) = (c * w + x.rotation_hz.bits as int, r * w + y.rotation_hz.bits as int);
    words_part(d, x.pulse_amplitude.bits, s, y.pulse_amplitude.bits);
    words_part(c, x.rotation_hz.bits, r, y.rotation_hz.bits);
    words_part(b, x.bearing.bits, q, y.bearing.bits);
    words_part(a, x.north_noise.bits, p, y.north_noise.bits);
}

/// The distance of a tick from the nearest whole rotation, where it is near
/// enough.
pub open spec fn tick_error_spec(result: TickResult, period: Double) -> Option<Double> {
    let time = statistics::tick_time_spec(result);
    let e = time.minus_spec(
        time.over_spec(period).round_spec().times_spec(period),
    ).abs_spec();
    if e.lt_spec(Double { bits: statistics::MATCH_SAMPLES }) {
        Some(e)
    } else {
        None
    }
}

/// The distance of a tick from the nearest whole rotation.
pub fn tick_error(result: &TickResult, period: Double) -> (e: Option<Double>)
    ensures
        e == tick_error_spec(*result, period),
{
    let time: Double = statistics::tick_time(result);
    let e: Double = time.minus(time.over(period).round().times(period)).abs();
    if e.less_than(Double::from_bits(statistics::MATCH_SAMPLES)) {
        Some(e)
    } else {
        None
    }
}

/// What a run showed.
pub ghost struct Seen {
    pub tick_errors: Seq<Double>,
    pub bearing_errors: Seq<Double>,
    pub signed_errors: Seq<Double>,
    pub stated: Seq<Double>,
}

/// What the first `k` results showed.
pub open spec fn seen_spec(results: Seq<TickResult>, truth: Single, period: Double, k: int) -> Seen
    decreases k,
{
    if k <= 0 {
        Seen {
            tick_errors: Seq::empty(),
            bearing_errors: Seq::empty(),
            signed_errors: Seq::empty(),
            stated: Seq::empty(),
        }
    } else {
        let before = seen_spec(results, truth, period, k - 1);
        let result = results[k - 1];
        let ticks = match tick_error_spec(result, period) {
            Some(e) => before.tick_errors.push(e),
            None => before.tick_errors,
        };
        match result.bearing {
            None => Seen { tick_errors: ticks, ..before },
            Some(b) => {
                let error = statistics::signed_error_spec(b.raw_bearing, truth);
                Seen {
                    tick_errors: ticks,
                    bearing_errors: before.bearing_errors.push(error.abs_spec()),
                    signed_errors: before.signed_errors.push(error),
                    stated: match b.metrics.bearing_uncertainty_deg {
                        Some(u) => before.stated.push(Double::from_single_spec(u)),
                        None => before.stated,
                    },
                }
            },
        }
    }
}

/// The figures of a cell.
#[derive(Debug, Clone, Copy, PartialEq, Eq)]
pub struct CellFigures {
    pub tick_error: Double,
    pub bearing_error: Double,
    /// Mean signed error: the part of it every estimate shares.
    pub bearing_bias: Double,
    /// Standard deviation about that: the part that scatters.
    ///
    /// Reported separately because the uncertainty figure models only the
    /// second. A displacement all the estimates share is invisible to a
    /// spread, so comparing `stated` against total error charges it for
    /// something it does not claim to measure.
    pub bearing_scatter: Double,
    pub bearing_p95: Double,
    pub stated_sigma: Double,
    pub bearings: usize,
}

/// The figures of what a run showed.
pub open spec fn figures_spec(seen: Seen) -> CellFigures {
    CellFigures {
        tick_error: compare::tail_mean_spec(seen.tick_errors),
        bearing_error: compare::tail_mean_spec(seen.bearing_errors),
        bearing_bias: compare::tail_mean_spec(seen.signed_errors),
        bearing_scatter: statistics::scatter_spec(
            statistics::tail_spec(seen.signed_errors, Double { bits: statistics::FIFTH }),
            compare::tail_mean_spec(seen.signed_errors),
        ),
        bearing_p95: compare::tail_p95_spec(seen.bearing_errors),
        stated_sigma: compare::tail_mean_spec(seen.stated),
        bearings: seen.bearing_errors.len() as usize,
    }
}

/// Measure a run against the bearing and the rotation that its signal was
/// made of.
pub fn measure(results: &[TickResult], truth: Single, period: Double) -> (f: CellFigures)
    ensures
        f == figures_spec(seen_spec(results@, truth, period, results@.len() as int)),
{
    let mut tick_errors: Vec<Double> = Vec::new();
    let mut bearing_errors: Vec<Double> = Vec::new();
    let mut signed_errors: Vec<Double> = Vec::new();
    let mut stated: Vec<Double> = Vec::new();
    let mut i: usize = 0;
    while i < results.len()
        invariant
            i <= results.len(),
            (Seen {
                tick_errors: tick_errors@,
                bearing_errors: bearing_errors@,
                signed_errors: signed_errors@,
                stated: stated@,
            }) == seen_spec(results@, truth, period, i as int),
        decreases results.len() - i,
    {
        let result: &TickResult = &results[i];
        if let Some(e) = tick_error(result, period) {
            tick_errors.push(e);
        }
        if let Some(b) = result.bearing {
            let error: Double = statistics::signed_error(b.raw_bearing, truth);
            bearing_errors.push(error.abs());
            signed_errors.push(error);
            if let Some(u) = b.metrics.bearing_uncertainty_deg {
                stated.push(Double::from_single(u));
            }
        }
        i = i + 1;
    }
    let last: Vec<Double> = statistics::tail(
        signed_errors.as_slice(),
        Double::from_bits(statistics::FIFTH),
    );
    let bias: Double = statistics::mean(last.as_slice());
    CellFigures {
        tick_error: compare::tail_mean(tick_errors.as_slice()),
        bearing_error: compare::tail_mean(bearing_errors.as_slice()),
        bearing_bias: bias,
        bearing_scatter: statistics::scatter(last.as_slice(), bias),
        bearing_p95: compare::tail_p95(bearing_errors.as_slice()),
        stated_sigma: compare::tail_mean(stated.as_slice()),
        bearings: bearing_errors.len(),
    }
}

/// The width of a column that holds texts of some lengths: at least that of
/// its heading and of each of them, and at least a few characters.
pub open spec fn width_spec(heading: nat, labels: Seq<usize>) -> nat
    decreases labels.len(),
{
    if labels.len() == 0 {
        if heading > MIN_WIDTH {
            heading
        } else {
            MIN_WIDTH as nat
        }
    } else {
        let w = width_spec(heading, labels.drop_last());
        if labels.last() > w {
            labels.last() as nat
        } else {
            w
        }
    }
}

/// The width of a column.
pub fn column_width(heading: usize, labels: &[usize]) -> (w: usize)
    ensures
        w == width_spec(heading as nat, labels@),
{
    let mut w: usize = if heading > MIN_WIDTH {
        heading
    } else {
        MIN_WIDTH
    };
    let mut i: usize = 0;
    while i < labels.len()
        invariant
            i <= labels.len(),
            w == width_spec(heading as nat, labels@.take(i as int)),
        decreases labels.len() - i,
    {
        assert(labels@.take(i + 1).drop_last() =~= labels@.take(i as int));
        if labels[i] > w {
            w = labels[i];
        }
        i = i + 1;
    }
    assert(labels@.take(i as int) =~= labels@);
    w
}

} // verus!
