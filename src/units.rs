//! Units, physical constants and the rounding rule shared by the model.
use vstd::prelude::*;

verus! {

/// 0 degrees Celsius expressed in microkelvin (the model uses 273, not 273.15).
pub const ZERO_CELSIUS_MICROKELVIN: i64 = 273_000_000;

/// Highest absolute temperature the model handles, in microkelvin.
pub const MAX_MICROKELVIN: i64 = 4_000_000_000;

/// Stefan-Boltzmann constant in units of 10^-14 W/(m^2 K^4).
pub const BOLTZMANN: u128 = 5_670_373;

/// Microkelvin^4 in one K^4.
pub const KELVIN4_SCALE: u128 = 1_000_000_000_000_000_000_000_000;

/// Divisor that turns K^4 times the Boltzmann constant's units times square
/// millimetres times parts per million of emissivity into microwatts.
pub const RADIATION_SCALE: u128 = 100_000_000_000_000_000_000;

/// Emissivity of a perfect black body, in parts per million.
pub const EMISSIVITY_ONE: u64 = 1_000_000;

/// Largest surface area the model handles, in square millimetres.
pub const MAX_AREA: u64 = 100_000_000_000;

/// Bound on the magnitude of any radiated power, in microwatts.
pub const MAX_POWER: i64 = 1_500_000_000_000_000_000;

/// Specific heat of water, in J/(kg K).
pub const WATER_SPECIFIC_HEAT: u32 = 4200;

/// Latent heat of vaporisation of water, in J/kg.
pub const LATENT_HEAT: u128 = 2_270_000;

/// Evaporation coefficient, in kg/(m^2 h).
pub const EVAPORATION_COEFFICIENT: u128 = 25;

/// Divisor that turns J/kg times kg/(m^2 h) times square millimetres times
/// humidity parts per million into microwatts: seconds per hour times 10^6.
pub const EVAPORATION_SCALE: u128 = 3_600_000_000;

/// Absolute temperature in microkelvin of a temperature in microdegrees Celsius.
pub open spec fn kelvin(t: int) -> int {
    t + ZERO_CELSIUS_MICROKELVIN
}

/// A temperature (microdegrees Celsius) the model can work with: not below
/// absolute zero and not above `MAX_MICROKELVIN`.
pub open spec fn valid_temp(t: int) -> bool {
    0 <= kelvin(t) <= MAX_MICROKELVIN
}

/// Division rounding towards zero, as integer division does in Rust.
pub open spec fn trunc_div(a: int, d: int) -> int {
    if a >= 0 {
        a / d
    } else {
        -((-a) / d)
    }
}

} // verus!
