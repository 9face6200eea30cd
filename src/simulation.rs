//! Second-by-second cooling of a mug of tea, and the experiments that run it.
use vstd::prelude::*;
use crate::units::{
    valid_temp, kelvin, trunc_div, EMISSIVITY_ONE, MAX_POWER, MAX_AREA, BOLTZMANN, KELVIN4_SCALE,
    RADIATION_SCALE, WATER_SPECIFIC_HEAT,
};
use crate::thermal::{radiated_power_of, next_temp_of, pow4, power_emitted, new_temperature};
use vstd::arithmetic::mul::lemma_mul_inequality;
use crate::mug::Mug;

verus! {

/// Temperature one second after `t`, for a black body of surface `area`
/// holding `volume` millilitres of water in a room at `ambient`.
pub open spec fn cooling_step(area: int, volume: int, ambient: int, t: int) -> int {
    next_temp_of(volume, t, radiated_power_of(area, t, ambient, EMISSIVITY_ONE as int))
}

/// Temperature after `i` seconds, starting from `t0`.
pub open spec fn curve_at(area: int, volume: int, ambient: int, t0: int, i: nat) -> int
    decreases i,
{
    if i == 0 {
        t0
    } else {
        cooling_step(area, volume, ambient, curve_at(area, volume, ambient, t0, (i - 1) as nat))
    }
}

/// Number of samples a run of `sim_time` seconds produces: one per second,
/// and the starting temperature in any case.
pub open spec fn sample_count(sim_time: int) -> int {
    if sim_time == 0 {
        1
    } else {
        sim_time
    }
}

/// The room temperature and every sample of the run lie in the range the
/// model handles.
pub open spec fn run_in_range(mug: Mug, init_temp: int, room_temp: int, sim_time: int) -> bool {
    &&& valid_temp(room_temp)
    &&& forall|i: nat| i < sample_count(sim_time)
        ==> #[trigger] valid_temp(curve_at(mug.radiating_area(), mug.volume as int, room_temp, init_temp, i))
}

/// `s` holds the cooling curve of the run, sample `i` at second `i`.
pub open spec fn is_cooling_curve(s: Seq<i64>, mug: Mug, init_temp: int, room_temp: int, sim_time: int) -> bool {
    &&& s.len() == sample_count(sim_time)
    &&& forall|i: int| 0 <= i < s.len()
        ==> s[i] == curve_at(mug.radiating_area(), mug.volume as int, room_temp, init_temp, i as nat)
}

/// Temperatures, one per second, of the tea in `mug` starting at
/// `init_temp` in a room at `room_temp`, over `sim_time` seconds. `None`
/// when the room or some sample leaves the range the model handles.
pub fn simulate(sim_time: u32, init_temp: i64, room_temp: i64, mug: &Mug) -> (r: Option<Vec<i64>>)
    requires
        mug.wf(),
    ensures
        r is Some <==> run_in_range(*mug, init_temp as int, room_temp as int, sim_time as int),
        r matches Some(v) ==> is_cooling_curve(v@, *mug, init_temp as int, room_temp as int, sim_time as int),
{
    let ghost area = mug.radiating_area();
    let ghost vol = mug.volume as int;
    let ghost t0 = init_temp as int;
    let ghost ta = room_temp as int;
    if !(room_temp >= -273_000_000 && room_temp <= 3_727_000_000) {
        return None;
    }
    if !(init_temp >= -273_000_000 && init_temp <= 3_727_000_000) {
        assert(!valid_temp(curve_at(area, vol, ta, t0, 0)));
        return None;
    }
    let total_radiative_area: u64 = mug.get_side_surface_area() + mug.get_top_surface_area();
    let mut result: Vec<i64> = Vec::new();
    result.push(init_temp);
    let n: usize = if sim_time == 0 { 1 } else { sim_time as usize };
    let mut time: usize = 1;
    while time < n
        invariant
            mug.wf(),
            total_radiative_area == area,
            area == mug.radiating_area(),
            vol == mug.volume,
            ta == room_temp,
            t0 == init_temp,
            area <= MAX_AREA,
            valid_temp(ta),
            n == sample_count(sim_time as int),
            1 <= time <= n,
            result.len() == time,
            forall|i: int| 0 <= i < time ==> result[i] == curve_at(area, vol, ta, t0, i as nat),
            forall|i: int| 0 <= i < time ==> valid_temp(result[i] as int),
        decreases n - time,
    {
        let prev_temp: i64 = result[time - 1];
        let power = power_emitted(total_radiative_area, prev_temp, room_temp, EMISSIVITY_ONE);
        proof {
            lemma_step_fits(mug.volume as int, prev_temp as int, power as int);
        }
        let next = new_temperature(mug.get_volume(), prev_temp, power);
        assert(next == curve_at(area, vol, ta, t0, time as nat)) by {
            assert(prev_temp == curve_at(area, vol, ta, t0, (time - 1) as nat));
        }
        if !(next >= -273_000_000 && next <= 3_727_000_000) {
            assert(!valid_temp(curve_at(area, vol, ta, t0, time as nat)));
            return None;
        }
        result.push(next);
        time = time + 1;
    }
    assert forall|i: nat| i < sample_count(sim_time as int) implies
        #[trigger] valid_temp(curve_at(area, vol, ta, t0, i)) by {
        assert(valid_temp(result[i as int] as int));
    }
    Some(result)
}

/// How an experiment's curve is drawn: its caption and its colour.
pub struct PlotStyle {
    pub caption: String,
    pub color: String,
}

/// One named run: a starting temperature, a room temperature, the curve once
/// simulated, and how to draw it.
pub struct Experiment {
    pub init_temp: i64,
    pub room_temp: i64,
    pub result: Vec<i64>,
    pub plot_options: PlotStyle,
}

impl Experiment {
    /// An experiment not yet simulated: its result is empty.
    pub fn new(init_temp: i64, room_temp: i64, plot_options: PlotStyle) -> (r: Experiment)
        ensures
            r.init_temp == init_temp,
            r.room_temp == room_temp,
            r.result@.len() == 0,
            r.plot_options == plot_options,
    {
        Experiment { init_temp, room_temp, result: Vec::new(), plot_options }
    }

    /// Runs the simulation for `max_time` seconds in `mug` and stores the
    /// curve. Returns whether the run stayed in range; when it did not, the
    /// stored result is left as it was.
    pub fn simulate(&mut self, max_time: u32, mug: &Mug) -> (r: bool)
        requires
            mug.wf(),
        ensures
            final(self).init_temp == old(self).init_temp,
            final(self).room_temp == old(self).room_temp,
            final(self).plot_options == old(self).plot_options,
            r == run_in_range(*mug, old(self).init_temp as int, old(self).room_temp as int, max_time as int),
            r ==> is_cooling_curve(final(self).result@, *mug, old(self).init_temp as int, old(self).room_temp as int, max_time as int),
            !r ==> final(self).result@ == old(self).result@,
    {
        match simulate(max_time, self.init_temp, self.room_temp, mug) {
            Some(v) => {
                self.result = v;
                true
            },
            None => false,
        }
    }
}

/// Number of points drawn for a run of `max_time` seconds whose result holds
/// `len` samples: seconds 1 up to but excluding `max_time`, as far as the
/// result reaches. The starting sample is not drawn.
pub open spec fn plotted_count(max_time: int, len: int) -> int {
    let n = if max_time <= len { max_time } else { len };
    if n >= 1 {
        n - 1
    } else {
        0
    }
}

/// The points of a curve as drawn: the seconds `1, 2, ...` and, beside each,
/// the sample taken at that second.
pub fn plot_series(max_time: u32, result: &Vec<i64>) -> (r: (Vec<u32>, Vec<i64>))
    ensures
        r.0@.len() == plotted_count(max_time as int, result@.len() as int),
        r.1@.len() == r.0@.len(),
        forall|j: int| 0 <= j < r.0@.len() ==> j + 1 < result@.len() && r.0@[j] == j + 1 && r.1@[j] == result@[j + 1],
{
    let n: usize = if (max_time as usize) <= result.len() { max_time as usize } else { result.len() };
    let mut xs: Vec<u32> = Vec::new();
    let mut ys: Vec<i64> = Vec::new();
    let mut t: usize = 1;
    while t < n
        invariant
            n == (if max_time <= result@.len() { max_time as int } else { result@.len() as int }),
            1 <= t,
            t <= n || (n == 0 && t == 1),
            xs@.len() == t - 1,
            ys@.len() == t - 1,
            forall|j: int| 0 <= j < xs@.len() ==> xs@[j] == j + 1 && ys@[j] == result@[j + 1],
        decreases n - t,
    {
        xs.push(t as u32);
        ys.push(result[t]);
        t = t + 1;
    }
    (xs, ys)
}

/// A tea as hot as its room stays at that temperature: the run stays in
/// range and every sample equals the starting temperature.
pub proof fn lemma_simulate_at_ambient(mug: Mug, temp: i64, sim_time: u32)
    requires
        mug.wf(),
        valid_temp(temp as int),
    ensures
        run_in_range(mug, temp as int, temp as int, sim_time as int),
        forall|i: nat| i < sample_count(sim_time as int)
            ==> #[trigger] curve_at(mug.radiating_area(), mug.volume as int, temp as int, temp as int, i) == temp,
{
    assert forall|i: nat| #[trigger] curve_at(mug.radiating_area(), mug.volume as int, temp as int, temp as int, i) == temp by {
        lemma_curve_constant(mug.radiating_area(), mug.volume as int, temp as int, i);
    }
}

proof fn lemma_curve_constant(area: int, volume: int, t: int, i: nat)
    requires
        volume > 0,
    ensures
        curve_at(area, volume, t, t, i) == t,
    decreases i,
{
    if i > 0 {
        lemma_curve_constant(area, volume, t, (i - 1) as nat);
        let c = BOLTZMANN * area * EMISSIVITY_ONE;
        assert(0 * c == 0) by (nonlinear_arith);
    }
}

/// Whether one-second steps are short enough for a body of surface `area`
/// holding `volume` millilitres of water, at temperatures up to `hottest`:
/// the largest rate of loss per degree above the room, 4 sigma A T^3 over
/// the heat capacity, is at most one per second, so that no step cools the
/// tea below the room.
pub open spec fn cooling_step_stable(area: int, volume: int, hottest: int) -> bool {
    4 * (kelvin(hottest) * kelvin(hottest) * kelvin(hottest)) * (BOLTZMANN * area * EMISSIVITY_ONE) * 1000
        <= KELVIN4_SCALE * RADIATION_SCALE * (WATER_SPECIFIC_HEAT * volume)
}

/// Tea hotter than its room only cools: when the steps are stable for the
/// starting temperature, the run stays in range, no sample falls below the
/// room, and each sample is at most the one before.
pub proof fn lemma_simulate_cooling_monotone(mug: Mug, init_temp: i64, room_temp: i64, sim_time: u32)
    requires
        mug.wf(),
        valid_temp(init_temp as int),
        valid_temp(room_temp as int),
        room_temp < init_temp,
        cooling_step_stable(mug.radiating_area(), mug.volume as int, init_temp as int),
    ensures
        run_in_range(mug, init_temp as int, room_temp as int, sim_time as int),
        forall|i: nat| #![trigger curve_at(mug.radiating_area(), mug.volume as int, room_temp as int, init_temp as int, i)]
            room_temp <= curve_at(mug.radiating_area(), mug.volume as int, room_temp as int, init_temp as int, i),
        forall|i: nat| #![trigger curve_at(mug.radiating_area(), mug.volume as int, room_temp as int, init_temp as int, i + 1)]
            curve_at(mug.radiating_area(), mug.volume as int, room_temp as int, init_temp as int, i + 1)
                <= curve_at(mug.radiating_area(), mug.volume as int, room_temp as int, init_temp as int, i),
{
    let area = mug.radiating_area();
    let vol = mug.volume as int;
    let ta = room_temp as int;
    let t0 = init_temp as int;
    assert(area >= 0);
    assert forall|i: nat| ta <= #[trigger] curve_at(area, vol, ta, t0, i) <= t0 by {
        lemma_curve_between(area, vol, ta, t0, i);
    }
    assert forall|i: nat| #[trigger] curve_at(area, vol, ta, t0, i + 1) <= curve_at(area, vol, ta, t0, i) by {
        lemma_curve_between(area, vol, ta, t0, i);
        lemma_step_bounded(area, vol, ta, curve_at(area, vol, ta, t0, i), t0);
        assert(curve_at(area, vol, ta, t0, i + 1) == cooling_step(area, vol, ta, curve_at(area, vol, ta, t0, i)));
    }
}

proof fn lemma_curve_between(area: int, volume: int, ta: int, t0: int, i: nat)
    requires
        area >= 0,
        volume > 0,
        kelvin(ta) >= 0,
        ta <= t0,
        cooling_step_stable(area, volume, t0),
    ensures
        ta <= curve_at(area, volume, ta, t0, i) <= t0,
    decreases i,
{
    if i > 0 {
        lemma_curve_between(area, volume, ta, t0, (i - 1) as nat);
        lemma_step_bounded(area, volume, ta, curve_at(area, volume, ta, t0, (i - 1) as nat), t0);
    }
}

/// Under stable steps, one step from between the room and the hottest
/// temperature lands between the room and where it started.
proof fn lemma_step_bounded(area: int, volume: int, ta: int, t: int, t0: int)
    requires
        area >= 0,
        volume > 0,
        kelvin(ta) >= 0,
        ta <= t <= t0,
        cooling_step_stable(area, volume, t0),
    ensures
        ta <= cooling_step(area, volume, ta, t) <= t,
{
    let kb = kelvin(t);
    let ka = kelvin(ta);
    let k0 = kelvin(t0);
    let c = BOLTZMANN * area * EMISSIVITY_ONE;
    let s4 = KELVIN4_SCALE as int;
    let rs = RADIATION_SCALE as int;
    let w = WATER_SPECIFIC_HEAT * volume;
    let d = pow4(kb) - pow4(ka);
    lemma_pow4_difference(ka, kb, k0);
    assert(c >= 0) by (nonlinear_arith)
        requires c == BOLTZMANN * area * EMISSIVITY_ONE, area >= 0;
    assert(w > 0) by (nonlinear_arith)
        requires w == WATER_SPECIFIC_HEAT * volume, volume > 0;

    let q = d / s4;
    assert(trunc_div(d, s4) == q);
    vstd::arithmetic::div_mod::lemma_fundamental_div_mod(d, s4);
    vstd::arithmetic::div_mod::lemma_div_pos_is_pos(d, s4);
    assert(q * s4 <= d) by (nonlinear_arith)
        requires d == s4 * q + d % s4, d % s4 >= 0;
    assert(q * c >= 0) by (nonlinear_arith)
        requires q >= 0, c >= 0;

    let p = (q * c) / rs;
    assert(trunc_div(q * c, rs) == p);
    assert(p == radiated_power_of(area, t, ta, EMISSIVITY_ONE as int));
    vstd::arithmetic::div_mod::lemma_fundamental_div_mod(q * c, rs);
    vstd::arithmetic::div_mod::lemma_div_pos_is_pos(q * c, rs);
    assert(p * rs <= q * c) by (nonlinear_arith)
        requires q * c == rs * p + (q * c) % rs, (q * c) % rs >= 0;

    let drop = (p * 1000) / w;
    assert(trunc_div(p * 1000, w) == drop);
    vstd::arithmetic::div_mod::lemma_fundamental_div_mod(p * 1000, w);
    vstd::arithmetic::div_mod::lemma_div_pos_is_pos(p * 1000, w);
    assert(drop * w <= p * 1000) by (nonlinear_arith)
        requires p * 1000 == w * drop + (p * 1000) % w, (p * 1000) % w >= 0;

    lemma_mul_inequality(drop * w, p * 1000, rs * s4);
    lemma_mul_inequality(p * rs, q * c, 1000 * s4);
    lemma_mul_inequality(q * s4, d, 1000 * c);
    lemma_mul_inequality(d, 4 * (k0 * k0 * k0) * (kb - ka), 1000 * c);
    lemma_mul_inequality(4 * (k0 * k0 * k0) * c * 1000, s4 * rs * w, kb - ka);
    assert(drop * w * (rs * s4) == drop * (w * rs * s4)) by (nonlinear_arith);
    assert(p * 1000 * (rs * s4) == p * rs * (1000 * s4)) by (nonlinear_arith);
    assert(q * c * (1000 * s4) == q * s4 * (1000 * c)) by (nonlinear_arith);
    assert(4 * (k0 * k0 * k0) * (kb - ka) * (1000 * c) == 4 * (k0 * k0 * k0) * c * 1000 * (kb - ka)) by (nonlinear_arith);
    assert(s4 * rs * w * (kb - ka) == (kb - ka) * (w * rs * s4)) by (nonlinear_arith);
    assert(drop * (w * rs * s4) <= (kb - ka) * (w * rs * s4));
    assert(w * rs * s4 > 0) by (nonlinear_arith)
        requires w > 0, rs > 0, s4 > 0;
    vstd::arithmetic::mul::lemma_mul_inequality_converse(drop, kb - ka, w * rs * s4);
    assert(drop >= 0);
}

/// The gap between fourth powers is at most four times the cube of any
/// upper bound times the gap between the bases.
proof fn lemma_pow4_difference(ka: int, kb: int, k0: int)
    requires
        0 <= ka <= kb <= k0,
    ensures
        0 <= pow4(kb) - pow4(ka) <= 4 * (k0 * k0 * k0) * (kb - ka),
{
    let s = kb * kb * kb + kb * kb * ka + kb * ka * ka + ka * ka * ka;
    assert(pow4(kb) - pow4(ka) == (kb - ka) * s) by (nonlinear_arith)
        requires s == kb * kb * kb + kb * kb * ka + kb * ka * ka + ka * ka * ka;
    assert(kb * kb * ka <= kb * kb * kb) by (nonlinear_arith)
        requires 0 <= ka <= kb;
    assert(kb * ka * ka <= kb * kb * kb) by (nonlinear_arith)
        requires 0 <= ka <= kb;
    assert(ka * ka * ka <= kb * kb * kb) by (nonlinear_arith)
        requires 0 <= ka <= kb;
    assert(kb * kb * kb <= k0 * k0 * k0) by (nonlinear_arith)
        requires 0 <= kb <= k0;
    assert(0 <= s <= 4 * (k0 * k0 * k0)) by (nonlinear_arith)
        requires
            0 <= ka,
            0 <= kb,
            s == kb * kb * kb + kb * kb * ka + kb * ka * ka + ka * ka * ka,
            kb * kb * ka <= kb * kb * kb,
            kb * ka * ka <= kb * kb * kb,
            ka * ka * ka <= kb * kb * kb,
            kb * kb * kb <= k0 * k0 * k0;
    lemma_mul_inequality(s, 4 * (k0 * k0 * k0), kb - ka);
    assert(0 <= (kb - ka) * s) by (nonlinear_arith)
        requires 0 <= s, ka <= kb;
    assert((kb - ka) * s == s * (kb - ka)) by (nonlinear_arith);
    assert(4 * (k0 * k0 * k0) * (kb - ka) == (4 * (k0 * k0 * k0)) * (kb - ka));
}

/// One step from a valid temperature with a bounded power stays in `i64`.
proof fn lemma_step_fits(volume: int, t: int, p: int)
    requires
        volume > 0,
        valid_temp(t),
        -MAX_POWER <= p <= MAX_POWER,
    ensures
        i64::MIN <= next_temp_of(volume, t, p) <= i64::MAX,
{
    let d = 4200 * volume;
    let a = if p >= 0 { p * 1000 } else { -p * 1000 };
    vstd::arithmetic::div_mod::lemma_div_is_ordered_by_denominator(a, 4200, d);
    vstd::arithmetic::div_mod::lemma_div_pos_is_pos(a, d);
}

} // verus!
