//! A fixed-point model of a hot drink cooling in a mug.
//!
//! Quantities are integers in fixed units: temperatures in microdegrees
//! Celsius, lengths in millimetres, areas in square millimetres, masses in
//! grams, volumes in millilitres (one millilitre of water weighs one gram),
//! specific heats in joules per kilogram and kelvin, powers in microwatts.
pub mod units;
pub mod thermal;
pub mod mug;
pub mod simulation;
