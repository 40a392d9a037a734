//! A two-dimensional rigid-body physics core in fixed-point arithmetic:
//! contact generation between circles and axis-aligned boxes, a sequential
//! impulse solver and a semi-implicit Euler integrator.

pub mod collider;
pub mod object;
pub mod rigid_body;
pub mod scalar;
pub mod solver;
pub mod vec2;
