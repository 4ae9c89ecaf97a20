//! Bearing errors under each kind of noise.
use crate::constants;
use crate::simulation::noise::{
    AdditiveNoiseConfig, FadingConfig, FadingType, ImpulseNoiseConfig, MultipathComponent,
    NoiseConfig,
};
use crate::single::Single;
use crate::tools::statistics;
use vstd::prelude::*;

verus! {

/// The signal-to-noise ratio under the other kinds of noise (25 dB).
pub const QUIET_SNR_DB: u32 = 0x41c8_0000;

/// The amplitude of an echo (0.3).
pub const ECHO_AMPLITUDE: u32 = 0x3e99_999a;

/// The amplitude of impulses (2).
pub const IMPULSE_AMPLITUDE: u32 = 0x4000_0000;

/// The length of impulses in samples.
pub const IMPULSE_SAMPLES: usize = 5;

/// Degrees between the bearings that are tried.
pub const BEARING_STEP: usize = 45;

/// Bearings that are tried.
pub const BEARINGS: usize = 7;

/// A kind of noise.
#[derive(Debug, Clone, Copy, PartialEq, Eq, Structural)]
pub enum NoiseKind {
    Awgn,
    Fading,
    Multipath,
    Impulse,
}

impl NoiseKind {
    /// The last parameter of a kind, and the distance of parameters.
    pub open spec fn grid_spec(self) -> (usize, usize) {
        match self {
            NoiseKind::Awgn => (40, 2),
            NoiseKind::Fading => (20, 1),
            NoiseKind::Multipath => (50, 2),
            NoiseKind::Impulse => (200, 10),
        }
    }

    /// The last parameter of a kind, and the distance of parameters.
    pub fn grid(self) -> (g: (usize, usize))
        ensures
            g == self.grid_spec(),
            g.1 > 0,
    {
        match self {
            NoiseKind::Awgn => (40, 2),
            NoiseKind::Fading => (20, 1),
            NoiseKind::Multipath => (50, 2),
            NoiseKind::Impulse => (200, 10),
        }
    }

    /// How a kind is called.
    pub fn name(self) -> (s: &'static str)
        ensures
            s@ == match self {
                NoiseKind::Awgn => "awgn"@,
                NoiseKind::Fading => "fading"@,
                NoiseKind::Multipath => "multipath"@,
                NoiseKind::Impulse => "impulse"@,
            },
    {
        match self {
            NoiseKind::Awgn => "awgn",
            NoiseKind::Fading => "fading",
            NoiseKind::Multipath => "multipath",
            NoiseKind::Impulse => "impulse",
        }
    }
}

/// The bearings that are tried: every eighth of a turn but north.
pub fn test_bearings() -> (r: Vec<Single>)
    ensures
        r@ == Seq::new(
            BEARINGS as nat,
            |i: int| Single::from_integer_spec((i + 1) * BEARING_STEP),
        ),
{
    let mut r: Vec<Single> = Vec::new();
    let mut i: usize = 0;
    while i < BEARINGS
        invariant
            i <= BEARINGS,
            r@ == Seq::new(
                i as nat,
                |i: int| Single::from_integer_spec((i + 1) * BEARING_STEP),
            ),
        decreases BEARINGS - i,
    {
        r.push(Single::from_count((i + 1) * BEARING_STEP));
        i = i + 1;
        assert(r@ =~= Seq::new(
            i as nat,
            |i: int| Single::from_integer_spec((i + 1) * BEARING_STEP),
        ));
    }
    r
}

/// The samples that an echo lags at a percentage of a rotation.
pub open spec fn delay_spec(samples_per_rotation: nat, percent: nat) -> nat {
    samples_per_rotation * percent / 100
}

/// The noise of a kind at a parameter. All kinds but the first have some white
/// noise too; at a parameter of zero they have nothing else.
pub fn noise_at(
    kind: NoiseKind,
    parameter: usize,
    samples_per_rotation: usize,
    seed: u64,
) -> (c: NoiseConfig)
    requires
        samples_per_rotation * parameter <= usize::MAX,
    ensures
        c.seed == seed,
        c.additive == Some(
            AdditiveNoiseConfig {
                snr_db: if kind == NoiseKind::Awgn {
                    Single::from_integer_spec(parameter as int)
                } else {
                    constants::of(QUIET_SNR_DB)
                },
            },
        ),
        c.fading == if kind == NoiseKind::Fading && constants::of(0).lt_spec(
            Single::from_integer_spec(parameter as int),
        ) {
            Some(
                FadingConfig {
                    fading_type: FadingType::Rayleigh,
                    doppler_spread_hz: Single::from_integer_spec(parameter as int),
                },
            )
        } else {
            None
        },
        match c.multipath {
            Some(paths) => {
                &&& kind == NoiseKind::Multipath
                &&& delay_spec(samples_per_rotation as nat, parameter as nat) > 0
                &&& paths@ == seq![
                    MultipathComponent {
                        delay_samples: delay_spec(
                            samples_per_rotation as nat,
                            parameter as nat,
                        ) as usize,
                        amplitude: constants::of(ECHO_AMPLITUDE),
                        phase_offset: constants::of(0),
                    },
                ]
            },
            None => kind != NoiseKind::Multipath || delay_spec(
                samples_per_rotation as nat,
                parameter as nat,
            ) == 0,
        },
        c.impulse == if kind == NoiseKind::Impulse && constants::of(0).lt_spec(
            Single::from_integer_spec(parameter as int),
        ) {
            Some(
                ImpulseNoiseConfig {
                    rate_hz: Single::from_integer_spec(parameter as int),
                    amplitude: constants::of(IMPULSE_AMPLITUDE),
                    duration_samples: IMPULSE_SAMPLES,
                },
            )
        } else {
            None
        },
{
    let value: Single = Single::from_count(parameter);
    let mut c: NoiseConfig = NoiseConfig {
        seed,
        additive: Some(
            AdditiveNoiseConfig {
                snr_db: if kind == NoiseKind::Awgn {
                    value
                } else {
                    Single::from_bits(QUIET_SNR_DB)
                },
            },
        ),
        fading: None,
        multipath: None,
        impulse: None,
    };
    if kind == NoiseKind::Fading && value.above(Single::zero()) {
        c.fading = Some(
            FadingConfig { fading_type: FadingType::Rayleigh, doppler_spread_hz: value },
        );
    }
    if kind == NoiseKind::Multipath {
        let delay: usize = (samples_per_rotation * parameter) / 100;
        if delay > 0 {
            let mut paths: Vec<MultipathComponent> = Vec::new();
            paths.push(
                MultipathComponent {
                    delay_samples: delay,
                    amplitude: Single::from_bits(ECHO_AMPLITUDE),
                    phase_offset: Single::zero(),
                },
            );
            assert(paths@ =~= seq![paths@[0]]);
            c.multipath = Some(paths);
        }
    }
    if kind == NoiseKind::Impulse && value.above(Single::zero()) {
        c.impulse = Some(
            ImpulseNoiseConfig {
                rate_hz: value,
                amplitude: Single::from_bits(IMPULSE_AMPLITUDE),
                duration_samples: IMPULSE_SAMPLES,
            },
        );
    }
    c
}

/// The figures of a parameter.
#[derive(Debug, Clone, Copy, PartialEq, Eq)]
pub struct TrialFigures {
    pub zc_mean: Single,
    pub zc_std: Single,
    pub corr_mean: Single,
    pub corr_std: Single,
}

/// The figures of the errors at a parameter, for each method.
pub fn figures(zc_errors: &[Single], corr_errors: &[Single]) -> (f: TrialFigures)
    ensures
        f.zc_mean == statistics::single_mean_spec(zc_errors@),
        f.zc_std == statistics::std_dev_spec(zc_errors@),
        f.corr_mean == statistics::single_mean_spec(corr_errors@),
        f.corr_std == statistics::std_dev_spec(corr_errors@),
{
    TrialFigures {
        zc_mean: statistics::single_mean(zc_errors),
        zc_std: statistics::std_dev(zc_errors),
        corr_mean: statistics::single_mean(corr_errors),
        corr_std: statistics::std_dev(corr_errors),
    }
}

} // verus!
