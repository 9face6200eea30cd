//! Closed-form heat calculations: mixing, radiation, one cooling step and
//! evaporation.
use vstd::prelude::*;
use crate::units::{
    kelvin, valid_temp, trunc_div, ZERO_CELSIUS_MICROKELVIN, BOLTZMANN, KELVIN4_SCALE,
    RADIATION_SCALE, EMISSIVITY_ONE, MAX_AREA, MAX_POWER, WATER_SPECIFIC_HEAT, LATENT_HEAT,
    EVAPORATION_COEFFICIENT, EVAPORATION_SCALE,
};

verus! {

/// Temperature reached when two bodies exchange heat until they are equal:
/// the average of the temperatures weighted by mass times specific heat,
/// rounded down.
pub open spec fn equilibrium_of(m1: int, t1: int, c1: int, m2: int, t2: int, c2: int) -> int {
    (m1 * c1 * t1 + m2 * c2 * t2) / (m1 * c1 + m2 * c2)
}

/// Equilibrium temperature of mass `mass1` (grams) at `temp1` with specific
/// heat `spec_heat1`, and mass `mass2` at `temp2` with specific heat
/// `spec_heat2`.
pub fn temp_equilibrium(mass1: u32, temp1: i64, spec_heat1: u32, mass2: u32, temp2: i64, spec_heat2: u32) -> (r: i64)
    requires
        valid_temp(temp1 as int),
        valid_temp(temp2 as int),
        mass1 * spec_heat1 + mass2 * spec_heat2 > 0,
    ensures
        r == equilibrium_of(mass1 as int, temp1 as int, spec_heat1 as int, mass2 as int, temp2 as int, spec_heat2 as int),
        valid_temp(r as int),
{
    assert(mass1 * spec_heat1 <= 0xffff_ffff_ffff_ffff) by (nonlinear_arith)
        requires mass1 <= 0xffff_ffff, spec_heat1 <= 0xffff_ffff;
    assert(mass2 * spec_heat2 <= 0xffff_ffff_ffff_ffff) by (nonlinear_arith)
        requires mass2 <= 0xffff_ffff, spec_heat2 <= 0xffff_ffff;
    let w1: u128 = (mass1 as u128) * (spec_heat1 as u128);
    let w2: u128 = (mass2 as u128) * (spec_heat2 as u128);
    let k1: u128 = (temp1 as i128 + ZERO_CELSIUS_MICROKELVIN as i128) as u128;
    let k2: u128 = (temp2 as i128 + ZERO_CELSIUS_MICROKELVIN as i128) as u128;
    assert(w1 * k1 <= 0xffff_ffff_ffff_ffff * 4_000_000_000) by (nonlinear_arith)
        requires w1 <= 0xffff_ffff_ffff_ffff, k1 <= 4_000_000_000;
    assert(w2 * k2 <= 0xffff_ffff_ffff_ffff * 4_000_000_000) by (nonlinear_arith)
        requires w2 <= 0xffff_ffff_ffff_ffff, k2 <= 4_000_000_000;
    let num: u128 = w1 * k1 + w2 * k2;
    let den: u128 = w1 + w2;
    let k: u128 = num / den;
    proof {
        lemma_weighted_average_shift(w1 as int, temp1 as int, w2 as int, temp2 as int);
        assert(w1 == mass1 * spec_heat1);
        assert(w2 == mass2 * spec_heat2);
    }
    (k as i128 - ZERO_CELSIUS_MICROKELVIN as i128) as i64
}

/// Net power radiated (microwatts) by a surface of `area` square millimetres
/// at `tb` into surroundings at `ta` (microdegrees Celsius), with emissivity
/// `e` in parts per million: the difference of the fourth powers of the
/// absolute temperatures, taken in whole K^4, times the Stefan-Boltzmann
/// constant, the area and the emissivity. Both roundings go towards zero.
pub open spec fn radiated_power_of(area: int, tb: int, ta: int, e: int) -> int {
    trunc_div(
        trunc_div(pow4(kelvin(tb)) - pow4(kelvin(ta)), KELVIN4_SCALE as int) * (BOLTZMANN * area * e),
        RADIATION_SCALE as int,
    )
}

/// Fourth power.
pub open spec fn pow4(k: int) -> int {
    k * k * k * k
}

/// Temperature after one second in which `volume` millilitres of water at
/// `t` lose `p` microwatts (a negative `p` is a gain).
pub open spec fn next_temp_of(volume: int, t: int, p: int) -> int {
    t - trunc_div(p * 1000, WATER_SPECIFIC_HEAT * volume)
}

/// Power (microwatts) carried away by evaporation from `area` square
/// millimetres of water surface, with the saturation humidity `hs` and the
/// air's humidity `ha` in parts per million.
pub open spec fn evaporation_of(area: int, hs: int, ha: int) -> int {
    trunc_div(LATENT_HEAT * EVAPORATION_COEFFICIENT * area * (hs - ha), EVAPORATION_SCALE as int)
}

/// Fourth power of an absolute temperature in microkelvin.
fn kelvin_pow4(t: i64) -> (r: u128)
    requires
        valid_temp(t as int),
    ensures
        r == pow4(kelvin(t as int)),
        r <= 256_000_000_000_000_000_000_000_000_000_000_000_000u128,
{
    let k: u128 = (t as i128 + ZERO_CELSIUS_MICROKELVIN as i128) as u128;
    assert(k * k * k * k <= 256_000_000_000_000_000_000_000_000_000_000_000_000u128) by (nonlinear_arith)
        requires 0 <= k <= 4_000_000_000;
    assert(k * k <= k * k * k * k || k == 0) by (nonlinear_arith)
        requires 0 <= k;
    assert(k * k * k <= k * k * k * k || k == 0) by (nonlinear_arith)
        requires 0 <= k;
    k * k * k * k
}

/// Net power (microwatts) radiated by a body of surface `area` (square
/// millimetres) at `init_temp` into a room at `room_temp` (microdegrees
/// Celsius), with `emissivity` in parts per million. Negative when the body
/// is colder than the room.
pub fn power_emitted(area: u64, init_temp: i64, room_temp: i64, emissivity: u64) -> (r: i64)
    requires
        valid_temp(init_temp as int),
        valid_temp(room_temp as int),
        area <= MAX_AREA,
        emissivity <= EMISSIVITY_ONE,
    ensures
        r == radiated_power_of(area as int, init_temp as int, room_temp as int, emissivity as int),
        -MAX_POWER <= r <= MAX_POWER,
{
    let kb = kelvin_pow4(init_temp);
    let ka = kelvin_pow4(room_temp);
    assert(BOLTZMANN * area * emissivity <= 5_670_373 * 100_000_000_000 * 1_000_000) by (nonlinear_arith)
        requires area <= 100_000_000_000, emissivity <= 1_000_000, BOLTZMANN == 5_670_373;
    let c: u128 = BOLTZMANN * (area as u128) * (emissivity as u128);
    if kb >= ka {
        let q: u128 = (kb - ka) / KELVIN4_SCALE;
        assert(q * c <= 256_000_000_000_000 * 567_037_300_000_000_000_000_000) by (nonlinear_arith)
            requires q <= 256_000_000_000_000, c <= 567_037_300_000_000_000_000_000;
        let m: u128 = q * c / RADIATION_SCALE;
        m as i64
    } else {
        let q: u128 = (ka - kb) / KELVIN4_SCALE;
        assert(q * c <= 256_000_000_000_000 * 567_037_300_000_000_000_000_000) by (nonlinear_arith)
            requires q <= 256_000_000_000_000, c <= 567_037_300_000_000_000_000_000;
        let m: u128 = q * c / RADIATION_SCALE;
        proof {
            assert((-q) * c == -(q * c)) by (nonlinear_arith);
        }
        -(m as i64)
    }
}

/// Temperature (microdegrees Celsius) after one second in which `volume`
/// millilitres of water at `start_temp` lose `power_loss` microwatts.
pub fn new_temperature(volume: u32, start_temp: i64, power_loss: i64) -> (r: i64)
    requires
        volume > 0,
        i64::MIN <= next_temp_of(volume as int, start_temp as int, power_loss as int) <= i64::MAX,
    ensures
        r == next_temp_of(volume as int, start_temp as int, power_loss as int),
{
    let d: u128 = (WATER_SPECIFIC_HEAT as u128) * (volume as u128);
    if power_loss >= 0 {
        let drop: u128 = (power_loss as u128) * 1000 / d;
        (start_temp as i128 - drop as i128) as i64
    } else {
        let gain: u128 = ((-(power_loss as i128)) as u128) * 1000 / d;
        (start_temp as i128 + gain as i128) as i64
    }
}

/// Power (microwatts) carried away by evaporation from a water surface of
/// `area` square millimetres, with saturation humidity `humidity_sat` and
/// air humidity `humidity_air` in parts per million.
pub fn evaporation_energy(area: u64, humidity_sat: u32, humidity_air: u32) -> (r: i64)
    requires
        area <= MAX_AREA,
    ensures
        r == evaporation_of(area as int, humidity_sat as int, humidity_air as int),
{
    let k: u128 = LATENT_HEAT * EVAPORATION_COEFFICIENT * (area as u128);
    if humidity_sat >= humidity_air {
        let h: u128 = (humidity_sat - humidity_air) as u128;
        assert(k * h <= 5_675_000_000_000_000_000 * 0xffff_ffff) by (nonlinear_arith)
            requires k <= 5_675_000_000_000_000_000, h <= 0xffff_ffff;
        (k * h / EVAPORATION_SCALE) as i64
    } else {
        let h: u128 = (humidity_air - humidity_sat) as u128;
        assert(k * h <= 5_675_000_000_000_000_000 * 0xffff_ffff) by (nonlinear_arith)
            requires k <= 5_675_000_000_000_000_000, h <= 0xffff_ffff;
        proof {
            let a = area as int;
            let g = humidity_sat - humidity_air;
            assert(LATENT_HEAT * EVAPORATION_COEFFICIENT * a * g == -(k * h)) by (nonlinear_arith)
                requires k == LATENT_HEAT * EVAPORATION_COEFFICIENT * a, h == -g;
        }
        -((k * h / EVAPORATION_SCALE) as i64)
    }
}

/// Mixing is symmetric: exchanging the two bodies leaves the equilibrium
/// temperature unchanged.
pub proof fn lemma_equilibrium_symmetric(mass1: u32, temp1: i64, spec_heat1: u32, mass2: u32, temp2: i64, spec_heat2: u32)
    ensures
        equilibrium_of(mass1 as int, temp1 as int, spec_heat1 as int, mass2 as int, temp2 as int, spec_heat2 as int)
            == equilibrium_of(mass2 as int, temp2 as int, spec_heat2 as int, mass1 as int, temp1 as int, spec_heat1 as int),
{
}

/// Mixing two identical bodies at the same temperature gives back exactly
/// that temperature.
pub proof fn lemma_equilibrium_identical(mass: u32, temp: i64, spec_heat: u32)
    requires
        mass * spec_heat > 0,
    ensures
        equilibrium_of(mass as int, temp as int, spec_heat as int, mass as int, temp as int, spec_heat as int) == temp,
{
    let w = mass * spec_heat;
    let t = temp as int;
    assert(w * t + w * t == (w + w) * t) by (nonlinear_arith);
    vstd::arithmetic::div_mod::lemma_div_multiples_vanish(t, w + w);
}

/// A body at the temperature of its surroundings radiates no net power,
/// whatever its area and emissivity.
pub proof fn lemma_power_balanced(area: u64, temp: i64, emissivity: u64)
    ensures
        radiated_power_of(area as int, temp as int, temp as int, emissivity as int) == 0,
{
    let c = BOLTZMANN * area * emissivity;
    assert(0 * c == 0) by (nonlinear_arith);
}

/// Exchanging the body's and the surroundings' temperatures turns a loss
/// into a gain of the same magnitude.
pub proof fn lemma_power_antisymmetric(area: u64, body_temp: i64, ambient_temp: i64, emissivity: u64)
    ensures
        radiated_power_of(area as int, body_temp as int, ambient_temp as int, emissivity as int)
            == -radiated_power_of(area as int, ambient_temp as int, body_temp as int, emissivity as int),
{
    let c = BOLTZMANN * area * emissivity;
    let d = pow4(kelvin(body_temp as int)) - pow4(kelvin(ambient_temp as int));
    lemma_trunc_div_neg(d, KELVIN4_SCALE as int);
    let q = trunc_div(d, KELVIN4_SCALE as int);
    assert((-q) * c == -(q * c)) by (nonlinear_arith);
    lemma_trunc_div_neg(q * c, RADIATION_SCALE as int);
}

/// Without any power lost the temperature does not change.
pub proof fn lemma_no_power_no_change(volume: u32, temp: i64)
    requires
        volume > 0,
    ensures
        next_temp_of(volume as int, temp as int, 0) == temp,
{
}

/// Rounding towards zero commutes with negation.
pub proof fn lemma_trunc_div_neg(a: int, d: int)
    requires
        d > 0,
    ensures
        trunc_div(-a, d) == -trunc_div(a, d),
{
    if a == 0 {
        assert(0int / d == 0);
    }
}

/// Shifting both temperatures by absolute zero shifts their weighted
/// average by the same amount, and the average stays between them.
proof fn lemma_weighted_average_shift(w1: int, t1: int, w2: int, t2: int)
    requires
        w1 >= 0,
        w2 >= 0,
        w1 + w2 > 0,
        valid_temp(t1),
        valid_temp(t2),
    ensures
        (w1 * kelvin(t1) + w2 * kelvin(t2)) / (w1 + w2) == (w1 * t1 + w2 * t2) / (w1 + w2) + ZERO_CELSIUS_MICROKELVIN,
        valid_temp((w1 * t1 + w2 * t2) / (w1 + w2)),
{
    let d = w1 + w2;
    let z = ZERO_CELSIUS_MICROKELVIN as int;
    assert(w1 * kelvin(t1) + w2 * kelvin(t2) == (w1 * t1 + w2 * t2) + z * d) by (nonlinear_arith)
        requires d == w1 + w2, z == ZERO_CELSIUS_MICROKELVIN;
    lemma_div_shift(w1 * t1 + w2 * t2, z, d);
    let lo = if t1 <= t2 { t1 } else { t2 };
    let hi = if t1 <= t2 { t2 } else { t1 };
    assert(lo * d <= w1 * t1 + w2 * t2 <= hi * d) by (nonlinear_arith)
        requires d == w1 + w2, w1 >= 0, w2 >= 0, lo <= t1 <= hi, lo <= t2 <= hi;
    vstd::arithmetic::div_mod::lemma_div_is_ordered(lo * d, w1 * t1 + w2 * t2, d);
    vstd::arithmetic::div_mod::lemma_div_is_ordered(w1 * t1 + w2 * t2, hi * d, d);
    vstd::arithmetic::div_mod::lemma_div_multiples_vanish(lo, d);
    vstd::arithmetic::div_mod::lemma_div_multiples_vanish(hi, d);
    assert(lo * d == d * lo && hi * d == d * hi) by (nonlinear_arith);
}

/// Adding a multiple of the divisor adds the multiplier to the quotient.
proof fn lemma_div_shift(n: int, z: int, d: int)
    requires
        d > 0,
    ensures
        (n + z * d) / d == n / d + z,
{
    vstd::arithmetic::div_mod::lemma_fundamental_div_mod(n, d);
    assert(n + z * d == (n / d + z) * d + n % d) by (nonlinear_arith)
        requires n == d * (n / d) + n % d;
    vstd::arithmetic::div_mod::lemma_fundamental_div_mod_converse(n + z * d, d, n / d + z, n % d);
}

} // verus!
