//! A ray caster over exact rational arithmetic.
//!
//! One ray per pixel leaves a pinhole camera at the origin, is tested against a
//! sphere, and the pixel takes either the sphere's colour or a vertical
//! background gradient. Every quantity is held as an integer numerator over a
//! positive integer denominator, and every contract is stated over the real
//! numbers that those fractions denote.
//!
//! - [`scalar`] and [`common`] hold the rational scalars, vectors and matrices;
//!   [`algebra`] holds their model over the reals.
//! - [`ray`] and [`actor`] hold rays, the sphere and its intersection test.
//! - [`camera`] and [`background`] state where rays point and what lies
//!   behind the scene.
//! - [`canvas`] renders into the pixel buffer of [`grid`].
//! - [`laws`] proves what holds of all of them for every input.

pub mod scalar;
pub mod algebra;
pub mod common;
pub mod ray;
pub mod actor;
pub mod camera;
pub mod background;
pub mod grid;
pub mod canvas;
pub mod laws;
