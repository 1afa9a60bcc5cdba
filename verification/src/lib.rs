//! Composite trapezoidal rule over exact rational arithmetic.
//!
//! The integrator works on rational numbers held in machine integers, so
//! every arithmetic step is exact; operations that would overflow the
//! representation report failure instead of returning a wrong value.

pub mod bounds;
pub mod integrands;
pub mod rational;
pub mod trapezoid;
