use crate::rat::{
    lemma_abs_mul, lemma_pos_mul, lemma_q_le_trans, q_bounded, q_eq, q_int, q_le, q_lt, q_wf, Rat, EVAL_BOUND,
    UNIFORM_BOUND,
};
use crate::value::{val_bounded, val_wf, Val};
use crate::StatsError;
use vstd::prelude::*;

verus! {

// ---------------------------------------------------------------------------
// The two-shape-parameter (beta) distribution.
//
// Parameters are two shapes, each a positive rational or positive infinity.
// Every evaluation dispatches through the same ordered decision table:
// domain violation, both shapes infinite (point mass at the midpoint 1/2),
// exactly one shape infinite (point mass at the endpoint the finite shape is
// driven away from), both shapes equal to one (uniform on [0, 1]), and the
// general case. In the general case the density is the gamma-function form
// `x^(a-1) (1-x)^(b-1) Gamma(a+b)/(Gamma(a) Gamma(b))`, which is not a
// rational of the inputs: the result then carries the exact rational parts
// and says which evaluation path (direct, or exponentiating the log-density
// once a shape exceeds the stability threshold 80) a numeric caller is to
// take. Every comparison in the table is exact.
// ---------------------------------------------------------------------------

/// A valid shape: a positive rational, or positive infinity.
pub open spec fn shape_pos(v: Val) -> bool {
    match v {
        Val::Fin(r) => q_lt(q_int(0), r@),
        Val::PosInf => true,
        _ => false,
    }
}

/// Well-formed stored shape.
pub open spec fn shape_wf(v: Val) -> bool {
    val_wf(v) && shape_pos(v)
}

/// The regime a parameter pair falls into, in the fixed precedence order
/// shared by the density, the log-density, the cumulative probability and
/// the moments.
#[derive(Clone, Copy, PartialEq, Eq, Structural, Debug)]
pub enum Regime {
    BothInfinite,
    FirstInfinite,
    SecondInfinite,
    Uniform,
    General,
}

pub open spec fn regime_of(a: Val, b: Val) -> Regime {
    if a is PosInf && b is PosInf {
        Regime::BothInfinite
    } else if a is PosInf {
        Regime::FirstInfinite
    } else if b is PosInf {
        Regime::SecondInfinite
    } else if q_eq(a->0@, q_int(1)) && q_eq(b->0@, q_int(1)) {
        Regime::Uniform
    } else {
        Regime::General
    }
}

/// The query point lies outside the domain [0, 1].
pub open spec fn beta_outside(x: Rat) -> bool {
    q_lt(x@, q_int(0)) || q_lt(q_int(1), x@)
}

/// Density of the two-shape family at `x`: an exact value in every regime
/// but the general one, where the result names the evaluation path instead.
#[derive(Clone, Copy, PartialEq, Eq, Structural, Debug)]
pub enum Density {
    /// Exactly zero.
    Zero,
    /// Positive infinity: the density of a point mass at `x`.
    PointMass,
    /// The exact rational value carried.
    Finite(Rat),
    /// The direct gamma-function formula applies.
    Direct,
    /// A shape exceeds the stability threshold: evaluate by exponentiating
    /// the log-density.
    LogSpace,
}

pub open spec fn beta_pdf(a: Val, b: Val, x: Rat) -> Density {
    if beta_outside(x) {
        Density::Zero
    } else {
        match regime_of(a, b) {
            Regime::BothInfinite => if q_eq(x@, (1int, 2int)) {
                Density::PointMass
            } else {
                Density::Zero
            },
            Regime::FirstInfinite => if q_eq(x@, q_int(1)) {
                Density::PointMass
            } else {
                Density::Zero
            },
            Regime::SecondInfinite => if q_eq(x@, q_int(0)) {
                Density::PointMass
            } else {
                Density::Zero
            },
            Regime::Uniform => Density::Finite(Rat { n: 1, d: 1 }),
            Regime::General => if q_lt(q_int(80), a->0@) || q_lt(q_int(80), b->0@) {
                Density::LogSpace
            } else {
                Density::Direct
            },
        }
    }
}

/// Cumulative probability of the two-shape family at `x`: exact in every
/// regime but the general one, where it is the regularized incomplete beta
/// function `I_x(a, b)` of the stored shapes.
#[derive(Clone, Copy, PartialEq, Eq, Structural, Debug)]
pub enum Cumulative {
    /// The exact rational value carried.
    Exact(Rat),
    /// The regularized incomplete beta function `I_x(a, b)`.
    RegBeta,
}

pub open spec fn beta_cdf(a: Val, b: Val, x: Rat) -> Cumulative {
    if q_lt(x@, q_int(0)) {
        Cumulative::Exact(Rat { n: 0, d: 1 })
    } else if q_le(q_int(1), x@) {
        Cumulative::Exact(Rat { n: 1, d: 1 })
    } else {
        match regime_of(a, b) {
            Regime::BothInfinite => if q_lt(x@, (1int, 2int)) {
                Cumulative::Exact(Rat { n: 0, d: 1 })
            } else {
                Cumulative::Exact(Rat { n: 1, d: 1 })
            },
            Regime::FirstInfinite => Cumulative::Exact(Rat { n: 0, d: 1 }),
            Regime::SecondInfinite => Cumulative::Exact(Rat { n: 1, d: 1 }),
            Regime::Uniform => Cumulative::Exact(x),
            Regime::General => Cumulative::RegBeta,
        }
    }
}

/// One power term of the log-density: nothing, or `coeff * ln(arg)`.
#[derive(Clone, Copy, PartialEq, Eq, Structural, Debug)]
pub enum LogTerm {
    Zero,
    Log { coeff: Rat, arg: Rat },
}

pub open spec fn log_term_wf(t: LogTerm) -> bool {
    t matches LogTerm::Log { coeff, arg } ==> q_wf(coeff@) && q_wf(arg@) && q_lt(
        q_int(0),
        arg@,
    )
}

/// Log-density of the two-shape family: an exact extended value in every
/// regime but the general one. `General { lower, upper }` stands for
/// `ln Gamma(a+b) - ln Gamma(a) - ln Gamma(b) + lower + upper` over the
/// stored shapes `a`, `b`.
#[derive(Clone, Copy, PartialEq, Eq, Structural, Debug)]
pub enum LogDensity {
    NegInf,
    PosInf,
    Exact(Rat),
    General { lower: LogTerm, upper: LogTerm },
}

/// The log-density is negative infinity: outside the domain, away from a
/// point mass, or at a domain boundary whose power term carries a genuine
/// singularity (the paired shape differs from one).
pub open spec fn beta_ln_neg_inf(a: Val, b: Val, x: Rat) -> bool {
    ||| beta_outside(x)
    ||| (!beta_outside(x) && match regime_of(a, b) {
        Regime::BothInfinite => !q_eq(x@, (1int, 2int)),
        Regime::FirstInfinite => !q_eq(x@, q_int(1)),
        Regime::SecondInfinite => !q_eq(x@, q_int(0)),
        Regime::Uniform => false,
        Regime::General => (q_eq(x@, q_int(0)) && !q_eq(a->0@, q_int(1))) || (q_eq(
            x@,
            q_int(1),
        ) && !q_eq(b->0@, q_int(1))),
    })
}

/// The log-density is positive infinity: `x` sits on a point mass.
pub open spec fn beta_ln_pos_inf(a: Val, b: Val, x: Rat) -> bool {
    !beta_outside(x) && match regime_of(a, b) {
        Regime::BothInfinite => q_eq(x@, (1int, 2int)),
        Regime::FirstInfinite => q_eq(x@, q_int(1)),
        Regime::SecondInfinite => q_eq(x@, q_int(0)),
        Regime::Uniform => false,
        Regime::General => false,
    }
}

#[derive(Clone, Copy, PartialEq, Eq, Structural, Debug)]
pub struct Beta {
    pub shape_a: Val,
    pub shape_b: Val,
}

impl Beta {
    pub open spec fn wf(&self) -> bool {
        shape_wf(self.shape_a) && shape_wf(self.shape_b)
    }

    /// Parameters lie within the magnitude bound `b`.
    pub open spec fn params_bounded(&self, b: int) -> bool {
        val_bounded(self.shape_a, b) && val_bounded(self.shape_b, b)
    }

    /// Validating factory: accepts exactly the pairs of positive (finite or
    /// positive-infinite) shapes, and rejects a not-a-number, zero, negative
    /// or negative-infinite shape with the one error this library surfaces.
    pub fn new(shape_a: Val, shape_b: Val) -> (r: Result<Beta, StatsError>)
        requires
            val_wf(shape_a),
            val_wf(shape_b),
        ensures
            r is Ok <==> shape_pos(shape_a) && shape_pos(shape_b),
            r matches Ok(d) ==> d.shape_a == shape_a && d.shape_b == shape_b && d.wf(),
            r matches Err(e) ==> e == StatsError::BadParams,
    {
        let ok_a = match shape_a {
            Val::Fin(v) => v.is_pos(),
            Val::PosInf => true,
            _ => false,
        };
        let ok_b = match shape_b {
            Val::Fin(v) => v.is_pos(),
            Val::PosInf => true,
            _ => false,
        };
        if ok_a && ok_b {
            Ok(Beta { shape_a, shape_b })
        } else {
            Err(StatsError::BadParams)
        }
    }

    pub fn shape_a(&self) -> (r: Val)
        ensures
            r == self.shape_a,
    {
        self.shape_a
    }

    pub fn shape_b(&self) -> (r: Val)
        ensures
            r == self.shape_b,
    {
        self.shape_b
    }

    /// Domain minimum: 0.
    pub fn min(&self) -> (r: Rat)
        ensures
            r@ == q_int(0),
    {
        Rat::from_int(0)
    }

    /// Domain maximum: 1.
    pub fn max(&self) -> (r: Rat)
        ensures
            r@ == q_int(1),
    {
        Rat::from_int(1)
    }

    /// The regime the stored parameter pair falls into.
    pub fn regime(&self) -> (r: Regime)
        requires
            self.wf(),
        ensures
            r == regime_of(self.shape_a, self.shape_b),
    {
        match (self.shape_a, self.shape_b) {
            (Val::PosInf, Val::PosInf) => Regime::BothInfinite,
            (Val::PosInf, _) => Regime::FirstInfinite,
            (_, Val::PosInf) => Regime::SecondInfinite,
            (Val::Fin(ar), Val::Fin(br)) => if ar.is_one() && br.is_one() {
                Regime::Uniform
            } else {
                Regime::General
            },
            _ => {
                proof {
                    assert(false);
                }
                Regime::General
            },
        }
    }

    /// Mean: undefined when both shapes are infinite; 1 when only the first
    /// is; 0 when only the second is; `a / (a + b)` otherwise.
    pub fn mean(&self) -> (r: Option<Rat>)
        requires
            self.wf(),
            self.params_bounded(EVAL_BOUND as int),
        ensures
            r is None <==> (self.shape_a is PosInf && self.shape_b is PosInf),
            r matches Some(m) ==> m.wf() && {
                if self.shape_a is PosInf {
                    m@ == q_int(1)
                } else if self.shape_b is PosInf {
                    m@ == q_int(0)
                } else {
                    let a = self.shape_a->0@;
                    let b = self.shape_b->0@;
                    m@ == (a.0 * b.1, a.0 * b.1 + b.0 * a.1)
                }
            },
    {
        match (self.shape_a, self.shape_b) {
            (Val::PosInf, Val::PosInf) => None,
            (Val::PosInf, _) => Some(Rat::from_int(1)),
            (_, Val::PosInf) => Some(Rat::from_int(0)),
            (Val::Fin(ar), Val::Fin(br)) => {
                proof {
                    lemma_abs_mul(ar@.0, br@.1, 32768, 32768);
                    lemma_abs_mul(br@.0, ar@.1, 32768, 32768);
                    lemma_pos_mul(ar@.0, br@.1);
                    lemma_pos_mul(br@.0, ar@.1);
                }
                Some(Rat { n: ar.n * br.d, d: ar.n * br.d + br.n * ar.d })
            },
            _ => {
                proof {
                    assert(false);
                }
                None
            },
        }
    }

    /// Variance: undefined when both shapes are infinite; 0 when exactly one
    /// is; `a b / ((a+b)^2 (a+b+1))` otherwise.
    pub fn variance(&self) -> (r: Option<Rat>)
        requires
            self.wf(),
            self.params_bounded(EVAL_BOUND as int),
        ensures
            r is None <==> (self.shape_a is PosInf && self.shape_b is PosInf),
            r matches Some(v) ==> v.wf() && {
                if self.shape_a is PosInf || self.shape_b is PosInf {
                    v@ == q_int(0)
                } else {
                    let a = self.shape_a->0@;
                    let b = self.shape_b->0@;
                    let dd = a.1 * b.1;
                    let s = a.0 * b.1 + b.0 * a.1;
                    v@ == ((a.0 * b.0) * (dd * dd), (s * s) * (s + dd))
                }
            },
    {
        match (self.shape_a, self.shape_b) {
            (Val::PosInf, Val::PosInf) => None,
            (Val::PosInf, _) => Some(Rat::from_int(0)),
            (_, Val::PosInf) => Some(Rat::from_int(0)),
            (Val::Fin(ar), Val::Fin(br)) => {
                proof {
                    lemma_abs_mul(ar@.0, br@.1, 32768, 32768);
                    lemma_abs_mul(br@.0, ar@.1, 32768, 32768);
                    lemma_abs_mul(ar@.1, br@.1, 32768, 32768);
                    lemma_abs_mul(ar@.0, br@.0, 32768, 32768);
                    let dd = ar@.1 * br@.1;
                    let s = ar@.0 * br@.1 + br@.0 * ar@.1;
                    lemma_abs_mul(dd, dd, 1073741824, 1073741824);
                    lemma_abs_mul(ar@.0 * br@.0, dd * dd, 1073741824, 1152921504606846976);
                    lemma_abs_mul(s, s, 2147483648, 2147483648);
                    lemma_abs_mul(s * s, s + dd, 4611686018427387904, 3221225472);
                    lemma_pos_mul(ar@.0, br@.1);
                    lemma_pos_mul(br@.0, ar@.1);
                    lemma_pos_mul(s, s);
                    lemma_pos_mul(s * s, s + dd);
                }
                let dd: i128 = ar.d * br.d;
                let s: i128 = ar.n * br.d + br.n * ar.d;
                Some(Rat { n: (ar.n * br.n) * (dd * dd), d: (s * s) * (s + dd) })
            },
            _ => {
                proof {
                    assert(false);
                }
                None
            },
        }
    }

    /// Entropy: undefined when either shape is infinite; otherwise the exact
    /// shapes are returned for a numeric caller to evaluate
    /// `ln B(a,b) - (a-1) psi(a) - (b-1) psi(b) + (a+b-2) psi(a+b)` on.
    pub fn entropy(&self) -> (r: Option<(Rat, Rat)>)
        requires
            self.wf(),
        ensures
            r is None <==> (self.shape_a is PosInf || self.shape_b is PosInf),
            r matches Some(p) ==> Val::Fin(p.0) == self.shape_a && Val::Fin(p.1) == self.shape_b,
    {
        match (self.shape_a, self.shape_b) {
            (Val::Fin(ar), Val::Fin(br)) => Some((ar, br)),
            (Val::PosInf, _) => None,
            (_, Val::PosInf) => None,
            _ => {
                proof {
                    assert(false);
                }
                None
            },
        }
    }

    /// Skewness as the exact scaled root `coeff * sqrt(radicand)` shifted by
    /// `base`: 0 when both shapes are infinite, -2 when only the first is,
    /// 2 when only the second is, and otherwise
    /// `2 (b-a) sqrt(a+b+1) / ((a+b+2) sqrt(a b))`.
    pub fn skewness(&self) -> (r: Option<crate::value::RootExpr>)
        requires
            self.wf(),
            self.params_bounded(EVAL_BOUND as int),
        ensures
            r is Some,
            r matches Some(e) ==> crate::value::root_wf(e) && {
                if self.shape_a is PosInf && self.shape_b is PosInf {
                    e.base@ == q_int(0) && e.coeff@ == q_int(0) && e.radicand@ == q_int(1)
                } else if self.shape_a is PosInf {
                    e.base@ == (-2int, 1int) && e.coeff@ == q_int(0) && e.radicand@ == q_int(1)
                } else if self.shape_b is PosInf {
                    e.base@ == (2int, 1int) && e.coeff@ == q_int(0) && e.radicand@ == q_int(1)
                } else {
                    let a = self.shape_a->0@;
                    let b = self.shape_b->0@;
                    let dd = a.1 * b.1;
                    let s = a.0 * b.1 + b.0 * a.1;
                    &&& e.base@ == q_int(0)
                    &&& e.coeff@ == (2 * (b.0 * a.1 - a.0 * b.1), s + 2 * dd)
                    &&& e.radicand@ == (s + dd, a.0 * b.0)
                }
            },
    {
        match (self.shape_a, self.shape_b) {
            (Val::PosInf, Val::PosInf) => Some(
                crate::value::RootExpr {
                    base: Rat::from_int(0),
                    coeff: Rat::from_int(0),
                    radicand: Rat::from_int(1),
                },
            ),
            (Val::PosInf, _) => Some(
                crate::value::RootExpr {
                    base: Rat { n: -2, d: 1 },
                    coeff: Rat::from_int(0),
                    radicand: Rat::from_int(1),
                },
            ),
            (_, Val::PosInf) => Some(
                crate::value::RootExpr {
                    base: Rat { n: 2, d: 1 },
                    coeff: Rat::from_int(0),
                    radicand: Rat::from_int(1),
                },
            ),
            (Val::Fin(ar), Val::Fin(br)) => {
                proof {
                    lemma_abs_mul(ar@.0, br@.1, 32768, 32768);
                    lemma_abs_mul(br@.0, ar@.1, 32768, 32768);
                    lemma_abs_mul(ar@.1, br@.1, 32768, 32768);
                    lemma_abs_mul(ar@.0, br@.0, 32768, 32768);
                    lemma_pos_mul(ar@.0, br@.1);
                    lemma_pos_mul(br@.0, ar@.1);
                    lemma_pos_mul(ar@.1, br@.1);
                    lemma_pos_mul(ar@.0, br@.0);
                }
                let dd: i128 = ar.d * br.d;
                let s: i128 = ar.n * br.d + br.n * ar.d;
                Some(
                    crate::value::RootExpr {
                        base: Rat::from_int(0),
                        coeff: Rat { n: 2 * (br.n * ar.d - ar.n * br.d), d: s + 2 * dd },
                        radicand: Rat { n: s + dd, d: ar.n * br.n },
                    },
                )
            },
            _ => {
                proof {
                    assert(false);
                }
                None
            },
        }
    }

    /// Mode: undefined whenever either shape is at most one or both are
    /// infinite; 1 when only the first shape is infinite; 0 when only the
    /// second is; `(a-1)/(a+b-2)` otherwise. Undefinedness is an empty
    /// result, never a failure.
    pub fn mode(&self) -> (r: Option<Rat>)
        requires
            self.wf(),
            self.params_bounded(EVAL_BOUND as int),
        ensures
            r is None <==> ({
                ||| (self.shape_a matches Val::Fin(ar) && q_le(ar@, q_int(1)))
                ||| (self.shape_b matches Val::Fin(br) && q_le(br@, q_int(1)))
                ||| (self.shape_a is PosInf && self.shape_b is PosInf)
            }),
            r matches Some(m) ==> m.wf() && {
                if self.shape_a is PosInf {
                    m@ == q_int(1)
                } else if self.shape_b is PosInf {
                    m@ == q_int(0)
                } else {
                    let a = self.shape_a->0@;
                    let b = self.shape_b->0@;
                    m@ == ((a.0 - a.1) * b.1, (a.0 * b.1 + b.0 * a.1) - 2 * (a.1 * b.1))
                }
            },
    {
        let one = Rat::from_int(1);
        let a_le_one = match self.shape_a {
            Val::Fin(v) => v.le(&one),
            _ => false,
        };
        let b_le_one = match self.shape_b {
            Val::Fin(v) => v.le(&one),
            _ => false,
        };
        if a_le_one || b_le_one {
            return None;
        }
        match (self.shape_a, self.shape_b) {
            (Val::PosInf, Val::PosInf) => None,
            (Val::PosInf, _) => Some(Rat::from_int(1)),
            (_, Val::PosInf) => Some(Rat::from_int(0)),
            (Val::Fin(ar), Val::Fin(br)) => {
                proof {
                    lemma_abs_mul(ar@.0, br@.1, 32768, 32768);
                    lemma_abs_mul(br@.0, ar@.1, 32768, 32768);
                    lemma_abs_mul(ar@.1, br@.1, 32768, 32768);
                    lemma_abs_mul(ar@.0 - ar@.1, br@.1, 65536, 32768);
                    assert((ar@.0 * br@.1 + br@.0 * ar@.1) - 2 * (ar@.1 * br@.1) > 0)
                        by (nonlinear_arith)
                        requires
                            ar@.0 > ar@.1,
                            br@.0 > br@.1,
                            ar@.1 > 0,
                            br@.1 > 0,
                    {
                        assert((ar@.0 * br@.1 + br@.0 * ar@.1) - 2 * (ar@.1 * br@.1) == (ar@.0
                            - ar@.1) * br@.1 + (br@.0 - br@.1) * ar@.1);
                        assert((ar@.0 - ar@.1) * br@.1 > 0);
                        assert((br@.0 - br@.1) * ar@.1 > 0);
                    }
                }
                Some(
                    Rat {
                        n: (ar.n - ar.d) * br.d,
                        d: (ar.n * br.d + br.n * ar.d) - 2 * (ar.d * br.d),
                    },
                )
            },
            _ => {
                proof {
                    assert(false);
                }
                None
            },
        }
    }

    /// Exact dispatch of the density at `x` through the five-regime table.
    pub fn pdf(&self, x: &Rat) -> (r: Density)
        requires
            self.wf(),
            self.params_bounded(EVAL_BOUND as int),
            x.wf(),
            q_bounded(x@, EVAL_BOUND as int),
        ensures
            r == beta_pdf(self.shape_a, self.shape_b, *x),
    {
        let zero = Rat::from_int(0);
        let one = Rat::from_int(1);
        if x.lt(&zero) || one.lt(x) {
            return Density::Zero;
        }
        match self.regime() {
            Regime::BothInfinite => {
                let half = Rat { n: 1, d: 2 };
                if x.eq_val(&half) {
                    Density::PointMass
                } else {
                    Density::Zero
                }
            },
            Regime::FirstInfinite => if x.eq_val(&one) {
                Density::PointMass
            } else {
                Density::Zero
            },
            Regime::SecondInfinite => if x.is_zero() {
                Density::PointMass
            } else {
                Density::Zero
            },
            Regime::Uniform => Density::Finite(Rat { n: 1, d: 1 }),
            Regime::General => {
                let eighty = Rat::from_int(80);
                let big = match (self.shape_a, self.shape_b) {
                    (Val::Fin(ar), Val::Fin(br)) => {
                        proof {
                            lemma_abs_mul(eighty@.0, ar@.1, 80, 32768);
                            lemma_abs_mul(ar@.0, eighty@.1, 32768, 1);
                            lemma_abs_mul(eighty@.0, br@.1, 80, 32768);
                            lemma_abs_mul(br@.0, eighty@.1, 32768, 1);
                        }
                        eighty.lt(&ar) || eighty.lt(&br)
                    },
                    _ => {
                        proof {
                            assert(false);
                        }
                        false
                    },
                };
                if big {
                    Density::LogSpace
                } else {
                    Density::Direct
                }
            },
        }
    }

    /// Exact dispatch of the log-density at `x`. In the general regime the
    /// two boundary inputs are handled independently and symmetrically: a
    /// power term at its boundary contributes nothing when its paired shape
    /// is exactly one (the singularity is removable) and drives the whole
    /// result to negative infinity otherwise.
    pub fn ln_pdf(&self, x: &Rat) -> (r: LogDensity)
        requires
            self.wf(),
            self.params_bounded(EVAL_BOUND as int),
            x.wf(),
            q_bounded(x@, EVAL_BOUND as int),
        ensures
            r is NegInf <==> beta_ln_neg_inf(self.shape_a, self.shape_b, *x),
            r is PosInf <==> beta_ln_pos_inf(self.shape_a, self.shape_b, *x),
            r is Exact <==> (!beta_outside(*x) && regime_of(self.shape_a, self.shape_b)
                is Uniform),
            r matches LogDensity::Exact(v) ==> v@ == q_int(0),
            r is General <==> (!beta_outside(*x) && regime_of(self.shape_a, self.shape_b)
                is General && !beta_ln_neg_inf(self.shape_a, self.shape_b, *x)),
            r matches LogDensity::General { lower, upper } ==> {
                let a = self.shape_a->0@;
                let b = self.shape_b->0@;
                &&& log_term_wf(lower)
                &&& log_term_wf(upper)
                &&& if q_eq(x@, q_int(0)) {
                    lower is Zero
                } else {
                    lower matches LogTerm::Log { coeff, arg } && coeff@ == (a.0 - a.1, a.1)
                        && arg == *x
                }
                &&& if q_eq(x@, q_int(1)) {
                    upper is Zero
                } else {
                    upper matches LogTerm::Log { coeff, arg } && coeff@ == (b.0 - b.1, b.1)
                        && arg@ == (x@.1 - x@.0, x@.1)
                }
            },
    {
        let zero = Rat::from_int(0);
        let one = Rat::from_int(1);
        if x.lt(&zero) || one.lt(x) {
            return LogDensity::NegInf;
        }
        match self.regime() {
            Regime::BothInfinite => {
                let half = Rat { n: 1, d: 2 };
                if x.eq_val(&half) {
                    LogDensity::PosInf
                } else {
                    LogDensity::NegInf
                }
            },
            Regime::FirstInfinite => if x.eq_val(&one) {
                LogDensity::PosInf
            } else {
                LogDensity::NegInf
            },
            Regime::SecondInfinite => if x.is_zero() {
                LogDensity::PosInf
            } else {
                LogDensity::NegInf
            },
            Regime::Uniform => LogDensity::Exact(Rat::from_int(0)),
            Regime::General => {
                let (ar, br) = match (self.shape_a, self.shape_b) {
                    (Val::Fin(av), Val::Fin(bv)) => (av, bv),
                    _ => {
                        proof {
                            assert(false);
                        }
                        (Rat::from_int(1), Rat::from_int(1))
                    },
                };
                let lower: LogTerm;
                if x.is_zero() {
                    if !ar.is_one() {
                        return LogDensity::NegInf;
                    }
                    lower = LogTerm::Zero;
                } else {
                    lower = LogTerm::Log { coeff: Rat { n: ar.n - ar.d, d: ar.d }, arg: *x };
                }
                let upper: LogTerm;
                if x.eq_val(&one) {
                    if !br.is_one() {
                        return LogDensity::NegInf;
                    }
                    upper = LogTerm::Zero;
                } else {
                    upper = LogTerm::Log {
                        coeff: Rat { n: br.n - br.d, d: br.d },
                        arg: Rat { n: x.d - x.n, d: x.d },
                    };
                }
                LogDensity::General { lower, upper }
            },
        }
    }

    /// Exact dispatch of the cumulative probability at `x`, total over all
    /// rationals by clamping to 0 below the domain and 1 at and beyond its
    /// upper end.
    pub fn cdf(&self, x: &Rat) -> (r: Cumulative)
        requires
            self.wf(),
            self.params_bounded(EVAL_BOUND as int),
            x.wf(),
            q_bounded(x@, EVAL_BOUND as int),
        ensures
            r == beta_cdf(self.shape_a, self.shape_b, *x),
    {
        let zero = Rat::from_int(0);
        let one = Rat::from_int(1);
        if x.lt(&zero) {
            return Cumulative::Exact(Rat { n: 0, d: 1 });
        }
        if one.le(x) {
            return Cumulative::Exact(Rat { n: 1, d: 1 });
        }
        match self.regime() {
            Regime::BothInfinite => {
                let half = Rat { n: 1, d: 2 };
                if x.lt(&half) {
                    Cumulative::Exact(Rat { n: 0, d: 1 })
                } else {
                    Cumulative::Exact(Rat { n: 1, d: 1 })
                }
            },
            Regime::FirstInfinite => Cumulative::Exact(Rat { n: 0, d: 1 }),
            Regime::SecondInfinite => Cumulative::Exact(Rat { n: 1, d: 1 }),
            Regime::Uniform => Cumulative::Exact(*x),
            Regime::General => Cumulative::RegBeta,
        }
    }

    /// Normalization `x / (x + y)` of two non-negative auxiliary variates,
    /// not both zero: the transform that turns two independent
    /// gamma-distributed draws into one draw of this family.
    pub fn sample_ratio(x: &Rat, y: &Rat) -> (r: Rat)
        requires
            x.wf(),
            y.wf(),
            q_bounded(x@, UNIFORM_BOUND as int),
            q_bounded(y@, UNIFORM_BOUND as int),
            q_le(q_int(0), x@),
            q_le(q_int(0), y@),
            q_lt(q_int(0), x@) || q_lt(q_int(0), y@),
        ensures
            r@ == (x@.0 * y@.1, x@.0 * y@.1 + y@.0 * x@.1),
            r.wf(),
            q_le(q_int(0), r@),
            q_le(r@, q_int(1)),
    {
        proof {
            lemma_abs_mul(x@.0, y@.1, 16777216, 16777216);
            lemma_abs_mul(y@.0, x@.1, 16777216, 16777216);
            assert(x@.0 * y@.1 >= 0 && y@.0 * x@.1 >= 0 && x@.0 * y@.1 + y@.0 * x@.1 > 0)
                by (nonlinear_arith)
                requires
                    q_wf(x@),
                    q_wf(y@),
                    q_le(q_int(0), x@),
                    q_le(q_int(0), y@),
                    q_lt(q_int(0), x@) || q_lt(q_int(0), y@),
            ;
        }
        let num: i128 = x.n * y.d;
        let den: i128 = x.n * y.d + y.n * x.d;
        let r = Rat { n: num, d: den };
        proof {
            assert(q_le(q_int(0), r@) && q_le(r@, q_int(1))) by (nonlinear_arith)
                requires
                    r@.0 >= 0,
                    r@.1 >= r@.0,
                    r@.1 > 0,
            ;
        }
        r
    }
}

// ---------------------------------------------------------------------------
// Laws of the two-shape family. The evaluation functions above return
// exactly what `beta_pdf`, `beta_cdf` and the log-density predicates
// describe, so these statements carry over to every call.
// ---------------------------------------------------------------------------

/// Outside the domain `[0, 1]` the density is exactly zero and the
/// log-density is negative infinity, whatever the parameters.
pub proof fn lemma_beta_pdf_outside(a: Val, b: Val, x: Rat)
    requires
        shape_wf(a),
        shape_wf(b),
        q_wf(x@),
        beta_outside(x),
    ensures
        beta_pdf(a, b, x) is Zero,
        beta_ln_neg_inf(a, b, x),
{
}

/// Wherever the cumulative probability takes an exact value it lies in
/// `[0, 1]`; at and beyond the domain maximum it is exactly 1; and at the
/// domain minimum, in every regime that takes an exact value there, it is 0
/// or the boundary value 1 (the latter when the mass sits at the minimum).
pub proof fn lemma_beta_cdf_bounds(a: Val, b: Val, x: Rat)
    requires
        shape_wf(a),
        shape_wf(b),
        q_wf(x@),
    ensures
        beta_cdf(a, b, x) matches Cumulative::Exact(v) ==> q_wf(v@) && q_le(q_int(0), v@)
            && q_le(v@, q_int(1)),
        q_le(q_int(1), x@) ==> beta_cdf(a, b, x) == Cumulative::Exact(Rat { n: 1, d: 1 }),
        (q_eq(x@, q_int(0)) && !(regime_of(a, b) is General)) ==> (beta_cdf(a, b, x)
            matches Cumulative::Exact(v) && (q_eq(v@, q_int(0)) || q_eq(v@, q_int(1)))),
{
}

/// The cumulative probability is non-decreasing wherever it takes exact
/// values: for `x1 <= x2`, exact values `v1` and `v2` satisfy `v1 <= v2`.
/// (In the general regime the value is the regularized incomplete beta
/// function of the collaborating special-function library, about which this
/// library states nothing.)
pub proof fn lemma_beta_cdf_monotone(a: Val, b: Val, x1: Rat, x2: Rat)
    requires
        shape_wf(a),
        shape_wf(b),
        q_wf(x1@),
        q_wf(x2@),
        q_le(x1@, x2@),
    ensures
        beta_cdf(a, b, x1) matches Cumulative::Exact(v1) ==> (beta_cdf(a, b, x2)
            matches Cumulative::Exact(v2) ==> q_le(v1@, v2@)),
{
    lemma_beta_cdf_bounds(a, b, x1);
    lemma_beta_cdf_bounds(a, b, x2);
    if q_lt(x1@, q_int(0)) {
    } else if q_le(q_int(1), x1@) {
        lemma_q_le_trans(q_int(1), x1@, x2@);
    } else {
        lemma_q_le_trans(q_int(0), x1@, x2@);
        if !q_lt(x1@, (1int, 2int)) && q_lt(x2@, (1int, 2int)) {
            lemma_q_le_trans((1int, 2int), x1@, x2@);
        }
    }
}

/// On the open support the density and the log-density select corresponding
/// branches, so `pdf(x) = exp(ln_pdf(x))` holds at the symbolic level: zero
/// density pairs with log-density `-oo`, a point mass with `+oo`, the
/// uniform density 1 with log-density 0, and the general gamma-function form
/// of the one with the general form of the other.
pub proof fn lemma_beta_pdf_ln_pdf_agree(a: Val, b: Val, x: Rat)
    requires
        shape_wf(a),
        shape_wf(b),
        q_wf(x@),
        q_lt(q_int(0), x@),
        q_lt(x@, q_int(1)),
    ensures
        beta_pdf(a, b, x) is Zero <==> beta_ln_neg_inf(a, b, x),
        beta_pdf(a, b, x) is PointMass <==> beta_ln_pos_inf(a, b, x),
        beta_pdf(a, b, x) matches Density::Finite(v) ==> v@ == (1int, 1int),
        beta_pdf(a, b, x) is Finite <==> regime_of(a, b) is Uniform,
        (beta_pdf(a, b, x) is Direct || beta_pdf(a, b, x) is LogSpace) <==> (regime_of(a, b)
            is General && !beta_ln_neg_inf(a, b, x)),
{
    assert(!beta_outside(x));
    assert(!q_eq(x@, q_int(0)));
    assert(!q_eq(x@, q_int(1)));
}

} // verus!
