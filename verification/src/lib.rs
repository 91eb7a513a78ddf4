//! A derivative-free maximizer that samples a shrinking, moving hypercube.
//!
//! Given an objective function on vectors, the optimizer draws a population
//! of points from a hyper-rectangular region, evaluates them, and uses the
//! best evaluations to decide whether and how to shrink and move the region.
//!
//! All numbers are fixed-point scalars (see [`scalar`]): every operation of
//! the search is exact, and what it computes is stated and proved.
//!
//! * [`scalar`]: the arithmetic of scalars.
//! * [`point`]: vectors and their elementwise operations.
//! * [`bounds`]: regions, their classification against a limit, and clamping.
//! * [`geometry`]: what translating, shrinking and clamping do to a region
//!   that is tracked beside its limit.
//! * [`evaluation`], [`queue`]: evaluations and the best-first structure.
//! * [`hypercube`]: the search region with its population.
//! * [`convergence`]: the shrink factor.
//! * [`optimizer`], [`result`]: the search loop and what it reports.
//! * [`objective_functions`]: objective functions on scalars.

pub mod bounds;
pub mod convergence;
pub mod evaluation;
pub mod geometry;
pub mod hypercube;
pub mod objective_functions;
pub mod optimizer;
pub mod point;
pub mod queue;
pub mod result;
pub mod scalar;
