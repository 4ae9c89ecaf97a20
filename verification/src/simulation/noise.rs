//! What noise a test signal is to have.
use crate::constants;
use crate::single::Single;
use crate::text;
use vstd::prelude::*;

verus! {

/// The K factor of Rician fading where none is given (4).
pub const DEFAULT_K_FACTOR: u32 = 0x4080_0000;

/// The amplitude of impulses where none is given (2).
pub const DEFAULT_IMPULSE_AMPLITUDE: u32 = 0x4000_0000;

/// The length of impulses in samples where none is given.
pub const DEFAULT_IMPULSE_SAMPLES: usize = 5;

#[derive(Debug, Clone, Copy, PartialEq, Eq, Structural)]
pub struct AdditiveNoiseConfig {
    pub snr_db: Single,
}

#[derive(Debug, Clone, Copy, PartialEq, Eq, Structural)]
pub enum FadingType {
    Rayleigh,
    Rician { k_factor: Single },
}

#[derive(Debug, Clone, Copy, PartialEq, Eq, Structural)]
pub struct FadingConfig {
    pub fading_type: FadingType,
    pub doppler_spread_hz: Single,
}

#[derive(Debug, Clone, Copy, PartialEq, Eq, Structural)]
pub struct MultipathComponent {
    pub delay_samples: usize,
    pub amplitude: Single,
    pub phase_offset: Single,
}

#[derive(Debug, Clone, Copy, PartialEq, Eq, Structural)]
pub struct ImpulseNoiseConfig {
    pub rate_hz: Single,
    pub amplitude: Single,
    pub duration_samples: usize,
}

/// What noise a test signal is to have.
pub struct NoiseConfig {
    pub seed: u64,
    pub additive: Option<AdditiveNoiseConfig>,
    pub fading: Option<FadingConfig>,
    pub multipath: Option<Vec<MultipathComponent>>,
    pub impulse: Option<ImpulseNoiseConfig>,
}

/// Fading as a file gives it.
pub struct FadingSection {
    pub fading_type: String,
    pub doppler_spread_hz: Single,
    pub k_factor: Option<Single>,
}

/// Noise as a file gives it.
pub struct NoiseFile {
    pub awgn: Option<AdditiveNoiseConfig>,
    pub fading: Option<FadingSection>,
    pub multipath: Option<Vec<MultipathComponent>>,
    pub impulse: Option<ImpulseNoiseConfig>,
}

/// Noise as the arguments give it.
#[derive(Debug, Clone, Copy, PartialEq, Eq)]
pub struct NoiseArguments {
    pub snr: Option<Single>,
    pub fading_hz: Option<Single>,
    pub impulse_rate: Option<Single>,
}

/// The kind of fading that a name stands for: only one name, in lower case, is
/// Rician.
pub open spec fn fading_type_spec(name: Seq<char>, k_factor: Option<Single>) -> FadingType {
    if crate::audio::capture::lowercase_of(name) == "rician"@ {
        FadingType::Rician {
            k_factor: match k_factor {
                Some(k) => k,
                None => constants::of(DEFAULT_K_FACTOR),
            },
        }
    } else {
        FadingType::Rayleigh
    }
}

/// The kind of fading that a name stands for.
pub fn fading_type(name: &str, k_factor: Option<Single>) -> (t: FadingType)
    ensures
        t == fading_type_spec(name@, k_factor),
{
    let lower: String = crate::audio::capture::lowercased(name);
    if text::same(lower.as_str(), "rician") {
        FadingType::Rician {
            k_factor: match k_factor {
                Some(k) => k,
                None => Single::from_bits(DEFAULT_K_FACTOR),
            },
        }
    } else {
        FadingType::Rayleigh
    }
}

pub open spec fn additive_spec(file: NoiseFile, args: NoiseArguments) -> Option<
    AdditiveNoiseConfig,
> {
    match args.snr {
        Some(snr_db) => Some(AdditiveNoiseConfig { snr_db }),
        None => file.awgn,
    }
}

pub open spec fn fading_spec(file: NoiseFile, args: NoiseArguments) -> Option<FadingConfig> {
    match args.fading_hz {
        Some(doppler_spread_hz) => Some(
            FadingConfig { fading_type: FadingType::Rayleigh, doppler_spread_hz },
        ),
        None => match file.fading {
            Some(f) => Some(
                FadingConfig {
                    fading_type: fading_type_spec(f.fading_type@, f.k_factor),
                    doppler_spread_hz: f.doppler_spread_hz,
                },
            ),
            None => None,
        },
    }
}

pub open spec fn impulse_spec(file: NoiseFile, args: NoiseArguments) -> Option<
    ImpulseNoiseConfig,
> {
    match args.impulse_rate {
        Some(rate_hz) => Some(
            ImpulseNoiseConfig {
                rate_hz,
                amplitude: constants::of(DEFAULT_IMPULSE_AMPLITUDE),
                duration_samples: DEFAULT_IMPULSE_SAMPLES,
            },
        ),
        None => file.impulse,
    }
}

fn copy_components(v: &Vec<MultipathComponent>) -> (r: Vec<MultipathComponent>)
    ensures
        r@ == v@,
{
    let mut r: Vec<MultipathComponent> = Vec::new();
    let mut i: usize = 0;
    while i < v.len()
        invariant
            i <= v.len(),
            r@ == v@.take(i as int),
        decreases v.len() - i,
    {
        r.push(v[i]);
        i = i + 1;
        assert(r@ =~= v@.take(i as int));
    }
    assert(r@ =~= v@);
    r
}

/// Put together what a file and the arguments say. An argument goes ahead of
/// the file; paths without components are none.
pub fn build_noise_config(file: &NoiseFile, args: &NoiseArguments, seed: u64) -> (c: NoiseConfig)
    ensures
        c.seed == seed,
        c.additive == additive_spec(*file, *args),
        c.fading == fading_spec(*file, *args),
        match (file.multipath, c.multipath) {
            (Some(given), Some(used)) => given@.len() > 0 && used@ == given@,
            (Some(given), None) => given@.len() == 0,
            (None, None) => true,
            (None, Some(_)) => false,
        },
        c.impulse == impulse_spec(*file, *args),
{
    let additive: Option<AdditiveNoiseConfig> = match args.snr {
        Some(snr_db) => Some(AdditiveNoiseConfig { snr_db }),
        None => file.awgn,
    };
    let fading: Option<FadingConfig> = match args.fading_hz {
        Some(doppler_spread_hz) => Some(
            FadingConfig { fading_type: FadingType::Rayleigh, doppler_spread_hz },
        ),
        None => match &file.fading {
            Some(f) => Some(
                FadingConfig {
                    fading_type: fading_type(f.fading_type.as_str(), f.k_factor),
                    doppler_spread_hz: f.doppler_spread_hz,
                },
            ),
            None => None,
        },
    };
    let multipath: Option<Vec<MultipathComponent>> = match &file.multipath {
        Some(v) => {
            if v.len() > 0 {
                Some(copy_components(v))
            } else {
                None
            }
        },
        None => None,
    };
    let impulse: Option<ImpulseNoiseConfig> = match args.impulse_rate {
        Some(rate_hz) => Some(
            ImpulseNoiseConfig {
                rate_hz,
                amplitude: Single::from_bits(DEFAULT_IMPULSE_AMPLITUDE),
                duration_samples: DEFAULT_IMPULSE_SAMPLES,
            },
        ),
        None => file.impulse,
    };
    NoiseConfig { seed, additive, fading, multipath, impulse }
}

} // verus!
