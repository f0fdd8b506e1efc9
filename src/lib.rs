//! Curve fitting and term-structure analytics: interpolation over ordered
//! sample points, a tridiagonal solver, and a yield curve that turns an
//! interpolated continuous yield into discount factors between dates.
pub mod bond;
pub mod calendar;
pub mod date;
pub mod day_count;
pub mod error;
pub mod field;
pub mod grid_curve;
pub mod interpolation;
pub mod linear_algebra;
pub mod period;
pub mod value;
pub mod yield_curve;
