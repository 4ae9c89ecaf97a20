//! Numeric constants for signal processing stability, as bit patterns.
use crate::single::Single;
use vstd::prelude::*;

verus! {

/// Epsilon for preventing division by zero in interpolation calculations
/// (1e-10). Used when computing sub-sample positions.
pub const INTERPOLATION_EPSILON: u32 = 0x2edb_e6ff;

/// Epsilon for frequency/period comparisons to avoid division by near-zero
/// values (1e-10).
pub const FREQUENCY_EPSILON: u32 = 0x2edb_e6ff;

/// Minimum signal power threshold for confidence calculations (1e-10).
/// Signals with power below this are considered too weak for reliable
/// measurement.
pub const MIN_POWER_THRESHOLD: u32 = 0x2edb_e6ff;

/// Minimum RMS threshold for AGC operation (1e-6). Signals with RMS below
/// this are considered silent; AGC holds gain constant.
pub const MIN_RMS_THRESHOLD: u32 = 0x3586_37bd;

/// The distance from one to the next larger number.
pub const EPSILON: u32 = 0x3400_0000;

/// Pi.
pub const PI: u32 = 0x4049_0fdb;

/// Two times pi.
pub const TWO_PI: u32 = 0x40c9_0fdb;

/// Two times pi in double precision.
pub const TWO_PI_DOUBLE: u64 = 0x4019_21fb_5444_2d18;

/// The value with a bit pattern.
pub open spec fn of(bits: u32) -> Single {
    Single { bits }
}

} // verus!
