//! Continuous univariate probability distributions over exact arithmetic.
//!
//! Two families are provided: a two-shape-parameter family on `[0, 1]`
//! (`beta`) and a bounded triple-parameter family with a piecewise-linear
//! density (`triangular`). Each is an immutable parameter bundle built by a
//! validating factory; every capability operation — domain bounds, moments,
//! mode, density, log-density, cumulative probability, sampling transforms —
//! is a pure function of the stored parameters and its input.
//!
//! Parameters and query points are exact rationals (`rat`), extended with
//! infinities and a not-a-number marker where validation calls for them
//! (`value`). Where a closed form is rational it is returned exactly; where
//! it involves a square root, a logarithm or a gamma-function form, the exact
//! rational parts are returned in symbolic form and a numeric caller
//! evaluates the irrational function on them. The degenerate-parameter
//! comparisons that drive the regime dispatch are exact, so the dispatch
//! itself — the ordered decision table over domain violations, infinite
//! shapes, unit shapes and the general case — is wholly verified, as are the
//! rational closed forms and the order and range laws of the cumulative
//! distributions.

pub mod beta;
pub mod rat;
pub mod triangular;
pub mod value;

use vstd::prelude::*;

verus! {

/// The one error this library surfaces: parameter validation at construction.
#[derive(Clone, Copy, PartialEq, Eq, Structural, Debug)]
pub enum StatsError {
    BadParams,
}

} // verus!
