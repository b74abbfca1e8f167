//! Decision logic of three Newton-type root finders: finite-difference
//! Newton-Raphson, Broyden's quasi-Newton method, and Newton with a
//! backtracking line search.
//!
//! The numerical work (residuals, Jacobians, pseudo-inverses, step lengths)
//! is done by the caller; the verified state machines here decide, from the
//! outcome of each piece of that work, whether to iterate again, which point
//! to return, or which error to report.
pub mod driver;
pub mod line_search;
