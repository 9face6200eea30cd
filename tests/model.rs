use tea_cooling::mug::{final_temp, Mug, MugError, MAX_LENGTH};
use tea_cooling::simulation::{plot_series, simulate, Experiment, PlotStyle};
use tea_cooling::thermal::{evaporation_energy, new_temperature, power_emitted, temp_equilibrium};
use tea_cooling::units::EMISSIVITY_ONE;

const C: i64 = 1_000_000;

fn tea_mug() -> Mug {
    Mug::new(95, 40, 282, 364).unwrap()
}

#[test]
fn equilibrium_is_symmetric() {
    let a = temp_equilibrium(364, 100 * C, 4200, 282, 23 * C, 1085);
    let b = temp_equilibrium(282, 23 * C, 1085, 364, 100 * C, 4200);
    assert_eq!(a, b);
    let c = temp_equilibrium(100, -5 * C, 2100, 250, 60 * C, 4200);
    let d = temp_equilibrium(250, 60 * C, 4200, 100, -5 * C, 2100);
    assert_eq!(c, d);
}

#[test]
fn equilibrium_of_identical_bodies() {
    assert_eq!(temp_equilibrium(364, 87_654_321, 4200, 364, 87_654_321, 4200), 87_654_321);
    assert_eq!(temp_equilibrium(1, -273 * C, 1, 1, -273 * C, 1), -273 * C);
}

#[test]
fn water_poured_into_cold_mug() {
    let t = temp_equilibrium(364, 100 * C, 4200, 282, 23 * C, 1085);
    assert!(t > 23 * C && t < 100 * C);
    assert!(100 * C - t < t - 23 * C);
    assert_eq!(t, 87_159_322);
    assert_eq!(final_temp(&tea_mug(), 23 * C, 100 * C), 87_159_322);
    assert_eq!(final_temp(&tea_mug(), 87_159_322, 100 * C), 97_858_662);
}

#[test]
fn mixing_with_zero_weight_keeps_temperature() {
    assert_eq!(temp_equilibrium(364, 80 * C, 4200, 0, 4 * C, 4200), 80 * C);
}

#[test]
fn no_power_at_room_temperature() {
    assert_eq!(power_emitted(28_902, 25 * C, 25 * C, EMISSIVITY_ONE), 0);
    assert_eq!(power_emitted(100_000_000_000, 3_000 * C, 3_000 * C, 1), 0);
}

#[test]
fn power_is_antisymmetric() {
    let loss = power_emitted(28_902, 100 * C, 25 * C, EMISSIVITY_ONE);
    let gain = power_emitted(28_902, 25 * C, 100 * C, EMISSIVITY_ONE);
    assert_eq!(loss, 18_798_816);
    assert_eq!(gain, -18_798_816);
}

#[test]
fn no_power_no_temperature_change() {
    assert_eq!(new_temperature(364, 87_654_321, 0), 87_654_321);
}

#[test]
fn one_step_of_cooling_and_heating() {
    assert_eq!(new_temperature(364, 100 * C, 18_798_816), 99_987_704);
    assert_eq!(new_temperature(364, 25 * C, -1_234_567), 25_000_807);
}

#[test]
fn evaporation_from_the_top() {
    let top = tea_mug().get_top_surface_area();
    assert_eq!(evaporation_energy(top, 19_826, 14_700), 406_129);
    assert_eq!(evaporation_energy(top, 14_700, 19_826), -406_129);
    assert_eq!(evaporation_energy(top, 5_000, 5_000), 0);
}

#[test]
fn mug_areas_and_volume() {
    let m = tea_mug();
    assert_eq!(m.get_top_surface_area(), 5_026);
    assert_eq!(m.get_side_surface_area(), 23_876);
    assert_eq!(m.get_volume(), 364);
}

#[test]
fn mug_rejects_bad_sizes() {
    assert_eq!(Mug::new(0, 40, 282, 364).err(), Some(MugError::ZeroSize));
    assert_eq!(Mug::new(95, 40, 282, 0).err(), Some(MugError::ZeroSize));
    assert_eq!(Mug::new(95, MAX_LENGTH + 1, 282, 364).err(), Some(MugError::TooLarge));
    assert!(Mug::new(MAX_LENGTH, MAX_LENGTH, 1, 1).is_ok());
}

#[test]
fn constant_curve_at_room_temperature() {
    let r = simulate(3600, 25 * C, 25 * C, &tea_mug()).unwrap();
    assert_eq!(r.len(), 3600);
    assert!(r.iter().all(|&t| t == 25 * C));
}

#[test]
fn hot_tea_only_cools() {
    let r = simulate(3600, 100 * C, 25 * C, &tea_mug()).unwrap();
    assert_eq!(r.len(), 3600);
    assert_eq!(&r[..4], &[100_000_000, 99_987_704, 99_975_411, 99_963_121]);
    assert_eq!(r[3599], 68_578_203);
    assert!(r.windows(2).all(|w| w[1] <= w[0]));
    assert!(r.iter().all(|&t| t >= 25 * C));
}

#[test]
fn simulation_is_deterministic() {
    let start = final_temp(&tea_mug(), 23 * C, 100 * C);
    let a = simulate(3600, start, 25 * C, &tea_mug());
    let b = simulate(3600, start, 25 * C, &tea_mug());
    assert_eq!(a, b);
}

#[test]
fn short_runs_keep_the_start() {
    assert_eq!(simulate(0, 90 * C, 25 * C, &tea_mug()), Some(vec![90 * C]));
    assert_eq!(simulate(1, 90 * C, 25 * C, &tea_mug()), Some(vec![90 * C]));
    assert_eq!(simulate(2, 100 * C, 25 * C, &tea_mug()).unwrap(), vec![100 * C, 99_987_704]);
}

#[test]
fn unstable_steps_overshoot() {
    let tiny = Mug::new(300, 300, 1, 1).unwrap();
    let r = simulate(5, 100 * C, 25 * C, &tiny).unwrap();
    assert_eq!(r, vec![100_000_000, -31_360_999, 19_906_935, 25_924_408, 24_798_591]);
}

#[test]
fn out_of_range_runs_fail() {
    assert_eq!(simulate(10, 100 * C, -300 * C, &tea_mug()), None);
    assert_eq!(simulate(10, 4_000 * C, 25 * C, &tea_mug()), None);
    let huge = Mug::new(1_000, 1_000, 1, 1).unwrap();
    assert_eq!(simulate(3, 100 * C, 25 * C, &huge), None);
    assert_eq!(simulate(1, 100 * C, 25 * C, &huge), Some(vec![100 * C]));
}

#[test]
fn experiment_stores_its_curve() {
    let style = PlotStyle { caption: String::from("Normal Cup"), color: String::from("red") };
    let mut e = Experiment::new(100 * C, 25 * C, style);
    assert!(e.result.is_empty());
    assert!(e.simulate(3, &tea_mug()));
    assert_eq!(e.result, vec![100_000_000, 99_987_704, 99_975_411]);
    assert_eq!(e.plot_options.caption, "Normal Cup");
    let mut cold = Experiment::new(100 * C, -300 * C, PlotStyle { caption: String::new(), color: String::new() });
    assert!(!cold.simulate(3, &tea_mug()));
    assert!(cold.result.is_empty());
}

#[test]
fn plotted_points_skip_the_start() {
    let (xs, ys) = plot_series(4, &vec![10, 20, 30, 40]);
    assert_eq!(xs, vec![1, 2, 3]);
    assert_eq!(ys, vec![20, 30, 40]);
    let (xs, ys) = plot_series(10, &vec![10, 20]);
    assert_eq!(xs, vec![1]);
    assert_eq!(ys, vec![20]);
    let (xs, ys) = plot_series(0, &vec![10, 20]);
    assert!(xs.is_empty() && ys.is_empty());
}
