//! Polymer reduction: sequences of letter units that annihilate in adjacent
//! pairs of the same type and opposite polarity, and the search for the unit
//! type whose removal shortens the reduced polymer most. Beside it stand a
//! few small utilities: command-line settings, a rectangular grid and points
//! of the plane.
pub mod unit;
pub mod reduction;
pub mod minimizer;
pub mod text;
pub mod pairs;
pub mod config;
pub mod grid;
pub mod point;
