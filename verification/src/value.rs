use crate::rat::{q_bounded, q_int, q_le, q_lt, q_wf, Rat};
use vstd::prelude::*;

verus! {

// ---------------------------------------------------------------------------
// Value types shared by the distributions.
//
// The factories take points of the extended real line (`Val`), so that the
// not-a-number and infinite parameters the validation rules reject are
// representable. Results that involve a square root or a logarithm are
// returned in exact symbolic form (`RootExpr`, `LogVal`, `LogExpr`): the
// rational parts are computed and verified here, and a caller evaluates the
// irrational function on them at whatever precision it works in.
// ---------------------------------------------------------------------------

/// A point of the extended real line, or not-a-number.
#[derive(Clone, Copy, PartialEq, Eq, Structural, Debug)]
pub enum Val {
    Nan,
    NegInf,
    Fin(Rat),
    PosInf,
}

/// A finite `Val` carries a well-formed rational.
pub open spec fn val_wf(v: Val) -> bool {
    v matches Val::Fin(r) ==> q_wf(r@)
}

/// Finite values of `v` lie within the magnitude bound `b`.
pub open spec fn val_bounded(v: Val, b: int) -> bool {
    v matches Val::Fin(r) ==> q_bounded(r@, b)
}

impl Val {
    pub fn is_nan(&self) -> (r: bool)
        ensures
            r == (*self is Nan),
    {
        match self {
            Val::Nan => true,
            _ => false,
        }
    }

    pub fn is_pos_inf(&self) -> (r: bool)
        ensures
            r == (*self is PosInf),
    {
        match self {
            Val::PosInf => true,
            _ => false,
        }
    }

    pub fn is_finite(&self) -> (r: bool)
        ensures
            r == (*self is Fin),
    {
        match self {
            Val::Fin(_) => true,
            _ => false,
        }
    }
}

/// The exact number `base + coeff * sqrt(radicand)`.
#[derive(Clone, Copy, PartialEq, Eq, Structural, Debug)]
pub struct RootExpr {
    pub base: Rat,
    pub coeff: Rat,
    pub radicand: Rat,
}

pub open spec fn root_wf(e: RootExpr) -> bool {
    &&& q_wf(e.base@)
    &&& q_wf(e.coeff@)
    &&& q_wf(e.radicand@)
    &&& q_le(q_int(0), e.radicand@)
}

/// The natural logarithm of an exact non-negative rational: `Ln(r)` stands
/// for `ln(r)` with `r > 0`, and `NegInf` for the logarithm of zero.
#[derive(Clone, Copy, PartialEq, Eq, Structural, Debug)]
pub enum LogVal {
    NegInf,
    Ln(Rat),
}

pub open spec fn log_val_wf(v: LogVal) -> bool {
    v matches LogVal::Ln(r) ==> q_wf(r@) && q_lt(q_int(0), r@)
}

/// The exact number `base + coeff * ln(arg)`, with `arg > 0`.
#[derive(Clone, Copy, PartialEq, Eq, Structural, Debug)]
pub struct LogExpr {
    pub base: Rat,
    pub coeff: Rat,
    pub arg: Rat,
}

pub open spec fn log_expr_wf(e: LogExpr) -> bool {
    &&& q_wf(e.base@)
    &&& q_wf(e.coeff@)
    &&& q_wf(e.arg@)
    &&& q_lt(q_int(0), e.arg@)
}

} // verus!
