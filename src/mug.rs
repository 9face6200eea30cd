//! The container: its geometry, its mass and the liquid it holds.
use vstd::prelude::*;
use crate::units::{valid_temp, WATER_SPECIFIC_HEAT};
use crate::thermal::{equilibrium_of, temp_equilibrium};

verus! {

/// Numerator of the rational approximation of pi.
pub const PI_NUM: u128 = 3_141_592_653_589_793;

/// Denominator of the rational approximation of pi.
pub const PI_DEN: u128 = 1_000_000_000_000_000;

/// Largest radius or height of a mug, in millimetres.
pub const MAX_LENGTH: u32 = 100_000;

/// Specific heat of porcelain, in J/(kg K).
pub const PORCELAIN_SPECIFIC_HEAT: u32 = 1085;

/// A mug: height and radius in millimetres, weight of the mug in grams,
/// volume of the liquid in millilitres.
pub struct Mug {
    pub height: u32,
    pub radius: u32,
    pub weight: u32,
    pub volume: u32,
}

/// Why a mug could not be built.
#[derive(Debug, Clone, Copy, PartialEq, Eq, Structural)]
pub enum MugError {
    /// One of the dimensions, the weight or the volume is zero.
    ZeroSize,
    /// The radius or the height exceeds `MAX_LENGTH`.
    TooLarge,
}

/// Area of the open top (square millimetres) of a mug of radius `r`
/// millimetres: pi r^2, rounded down.
pub open spec fn top_area_of(r: int) -> int {
    PI_NUM * r * r / (PI_DEN as int)
}

/// Area of the side wall (square millimetres): 2 pi r h, rounded down.
pub open spec fn side_area_of(r: int, h: int) -> int {
    2 * PI_NUM * r * h / (PI_DEN as int)
}

impl Mug {
    /// Every quantity is positive and the dimensions are at most `MAX_LENGTH`.
    pub open spec fn wf(&self) -> bool {
        &&& 0 < self.height <= MAX_LENGTH
        &&& 0 < self.radius <= MAX_LENGTH
        &&& 0 < self.weight
        &&& 0 < self.volume
    }

    /// Area through which the mug radiates: side wall plus top.
    pub open spec fn radiating_area(&self) -> int {
        side_area_of(self.radius as int, self.height as int) + top_area_of(self.radius as int)
    }

    pub fn new(height: u32, radius: u32, weight: u32, volume: u32) -> (r: Result<Mug, MugError>)
        ensures
            (height == 0 || radius == 0 || weight == 0 || volume == 0) ==> r == Err::<Mug, MugError>(MugError::ZeroSize),
            (height != 0 && radius != 0 && weight != 0 && volume != 0 && (height > MAX_LENGTH || radius > MAX_LENGTH))
                ==> r == Err::<Mug, MugError>(MugError::TooLarge),
            r is Ok <==> (0 < height <= MAX_LENGTH && 0 < radius <= MAX_LENGTH && weight != 0 && volume != 0),
            r matches Ok(m) ==> m.wf() && m.height == height && m.radius == radius && m.weight == weight && m.volume == volume,
    {
        if height == 0 || radius == 0 || weight == 0 || volume == 0 {
            Err(MugError::ZeroSize)
        } else if height > MAX_LENGTH || radius > MAX_LENGTH {
            Err(MugError::TooLarge)
        } else {
            Ok(Mug { height, radius, weight, volume })
        }
    }

    /// Area of the open top, in square millimetres.
    pub fn get_top_surface_area(&self) -> (r: u64)
        requires
            self.wf(),
        ensures
            r == top_area_of(self.radius as int),
            r <= 31_415_926_535,
    {
        let r: u128 = self.radius as u128;
        assert(PI_NUM * r * r <= 3_141_592_653_589_793 * 10_000_000_000) by (nonlinear_arith)
            requires r <= 100_000, PI_NUM == 3_141_592_653_589_793;
        (PI_NUM * r * r / PI_DEN) as u64
    }

    /// Area of the side wall, in square millimetres.
    pub fn get_side_surface_area(&self) -> (r: u64)
        requires
            self.wf(),
        ensures
            r == side_area_of(self.radius as int, self.height as int),
            r <= 62_831_853_071,
    {
        let r: u128 = self.radius as u128;
        let h: u128 = self.height as u128;
        assert(2 * PI_NUM * r * h <= 2 * 3_141_592_653_589_793 * 10_000_000_000) by (nonlinear_arith)
            requires r <= 100_000, h <= 100_000, PI_NUM == 3_141_592_653_589_793;
        (2 * PI_NUM * r * h / PI_DEN) as u64
    }

    /// Volume of the liquid, in millilitres; as water, also its mass in grams.
    pub fn get_volume(&self) -> (r: u32)
        ensures
            r == self.volume,
    {
        self.volume
    }
}

/// Temperature (microdegrees Celsius) of the water and the mug once water at
/// `water_temp` poured into the mug at `mug_temp` has reached equilibrium
/// with it.
pub fn final_temp(mug: &Mug, mug_temp: i64, water_temp: i64) -> (r: i64)
    requires
        mug.wf(),
        valid_temp(mug_temp as int),
        valid_temp(water_temp as int),
    ensures
        r == equilibrium_of(
            mug.volume as int, water_temp as int, WATER_SPECIFIC_HEAT as int,
            mug.weight as int, mug_temp as int, PORCELAIN_SPECIFIC_HEAT as int,
        ),
        valid_temp(r as int),
{
    let water_weight = mug.get_volume();
    assert(water_weight * WATER_SPECIFIC_HEAT > 0) by (nonlinear_arith)
        requires water_weight > 0, WATER_SPECIFIC_HEAT == 4200;
    temp_equilibrium(water_weight, water_temp, WATER_SPECIFIC_HEAT, mug.weight, mug_temp, PORCELAIN_SPECIFIC_HEAT)
}

} // verus!
