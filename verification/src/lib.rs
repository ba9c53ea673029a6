//! Geohash: a point of the earth as a short text that names a cell of a grid,
//! and back.
//!
//! A geohash is made by halving the range of longitudes and the range of
//! latitudes in turn, longitude first. Each halving gives one bit, 1 for the
//! upper half, and every five bits make one symbol of a 32-symbol alphabet.
//! [`encode`] turns a point into its geohash, [`decode`] turns a geohash into
//! the centre of the cell that it names.
//!
//! Angles are whole numbers of units of 2^-45 of a degree ([`Angle`]), so that
//! every comparison and every midpoint is exact: up to [`MAX_PRECISION`]
//! symbols, all boundaries and centres of cells are whole numbers of units.
//! An angle is read from and written to the bit pattern of a binary64 number of
//! degrees, the value that `f64::to_bits` returns and `f64::from_bits` takes.
//!
//! A coordinate that lies exactly on a midpoint belongs to the lower half, on
//! both axes.

pub mod alphabet;
pub mod angle;
pub mod binary64;
pub mod bits;
pub mod decode;
pub mod encode;
pub mod error;
pub mod grid;
pub mod interval;
pub mod shape;
pub mod theorems;

pub use alphabet::{symbol_for, value_for};
pub use angle::Angle;
pub use bits::decimal_to_binary;
pub use decode::decode;
pub use encode::encode;
pub use error::GeohashError;
pub use grid::{LAT_LIMIT, LNG_LIMIT, MAX_PRECISION};
pub use interval::{refine_interval, Bisection, Interval};
