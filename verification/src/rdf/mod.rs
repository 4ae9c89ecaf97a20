//! North reference tracking and bearing calculation.
pub mod bearing;
pub mod bearing_calculator;
pub mod bearing_calculator_base;
pub mod bearing_correlation;
pub mod bearing_laws;
pub mod bearing_zero_crossing;
pub mod centroid;
pub mod coast_laws;
pub mod dpll_laws;
pub mod gap_laws;
pub mod limit_laws;
pub mod lock_laws;
pub mod loop_laws;
pub mod looks_laws;
pub mod measure_laws;
pub mod north_ref;
pub mod north_ref_common;
pub mod north_ref_dpll;
pub mod north_ref_simple;
pub mod period_laws;
pub mod rate_laws;
pub mod rolling_laws;
pub mod rolling_stats;
pub mod rotation_laws;
pub mod rotation_loop;
pub mod score_laws;
pub mod simple_laws;
pub mod steering_laws;
