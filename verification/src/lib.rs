//! A deterministic 2-D particle physics simulator driven by a symbolic
//! kinematics engine: acceleration models are dimensioned polynomial
//! functions, integrated analytically into closed-form position functions,
//! compiled to numeric evaluators, and re-derived whenever a collision
//! changes initial conditions.
//!
//! Real quantities are carried as exact rational numbers so that the
//! function algebra and the collision mechanics can be stated and proved
//! exactly.

pub mod drive;
pub mod kinematics;
pub mod laws;
pub mod physics;
pub mod rational;
