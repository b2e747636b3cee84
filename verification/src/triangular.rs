use crate::rat::{
    lemma_abs_mul, lemma_diff_cross, lemma_diff_cross_upper, lemma_pos_mul, lemma_q_le_compat,
    lemma_q_le_lt_trans, lemma_q_le_trans, lemma_q_lt_le_trans,
    q_bounded, q_eq, q_int, q_le, q_lt, q_wf, Rat, EVAL_BOUND, NEW_BOUND, SKEW_BOUND,
    UNIFORM_BOUND,
};
use crate::value::{log_expr_wf, log_val_wf, root_wf, val_bounded, val_wf, LogExpr, LogVal,
    RootExpr, Val};
use crate::StatsError;
use vstd::prelude::*;

verus! {

// ---------------------------------------------------------------------------
// The bounded triple-parameter (triangular) distribution.
//
// Parameters are three rationals `min <= mode <= max` with `min < max`. The
// density is piecewise linear, rising from 0 at `min` to the peak
// `2/(max-min)` at `mode` and falling back to 0 at `max`; the cumulative
// distribution is the matching piecewise quadratic. Every closed form below
// is stated as a spec function over `(int, int)` pairs with the denominators
// cleared, and each operation returns exactly that rational (or an exact
// symbolic root or logarithm of one).
//
// The proof blocks bound every intermediate product through `lemma_abs_mul`
// with literal magnitudes, which is what the `EVAL_BOUND`-style requirements
// exist for: they are the machine limits under which each cleared form fits
// in an `i128`.
// ---------------------------------------------------------------------------

/// Valid parameters: well-formed rationals with `min <= mode <= max`, `min < max`.
pub open spec fn tri_wf(a: (int, int), b: (int, int), c: (int, int)) -> bool {
    &&& q_wf(a)
    &&& q_wf(b)
    &&& q_wf(c)
    &&& q_le(a, c)
    &&& q_le(c, b)
    &&& q_lt(a, b)
}

/// The factory accepts exactly finite triples ordered as `min <= mode <= max`
/// with `min != max`.
pub open spec fn tri_params_ok(min: Val, max: Val, mode: Val) -> bool {
    &&& min is Fin
    &&& max is Fin
    &&& mode is Fin
    &&& !q_lt(max->0@, mode->0@)
    &&& !q_lt(mode->0@, min->0@)
    &&& !q_eq(min->0@, max->0@)
}

/// Mean `(min + max + mode) / 3`.
pub open spec fn tri_mean(a: (int, int), b: (int, int), c: (int, int)) -> (int, int) {
    (
        (a.0 * (b.1 * c.1) + b.0 * (a.1 * c.1)) + c.0 * (a.1 * b.1),
        3 * (a.1 * (b.1 * c.1)),
    )
}

/// Numerator of the variance over the common denominator: with
/// `x = min`, `y = max`, `z = mode` brought to the common denominator,
/// this is `x^2 + y^2 + z^2 - xy - xz - yz`.
pub open spec fn tri_var_num(a: (int, int), b: (int, int), c: (int, int)) -> int {
    let x = a.0 * (b.1 * c.1);
    let y = b.0 * (a.1 * c.1);
    let z = c.0 * (a.1 * b.1);
    ((x * x + y * y) + z * z) - ((x * y + x * z) + y * z)
}

/// Variance `(min^2 + max^2 + mode^2 - min*max - min*mode - max*mode) / 18`.
pub open spec fn tri_variance(a: (int, int), b: (int, int), c: (int, int)) -> (int, int) {
    let dd = a.1 * (b.1 * c.1);
    (tri_var_num(a, b, c), 18 * (dd * dd))
}

/// Density at `x`: 0 outside `[min, max]`, the peak `2/(max-min)` at the
/// mode, `2(x-min)/((max-min)(mode-min))` on the rising branch and
/// `2(max-x)/((max-min)(max-mode))` on the falling branch.
pub open spec fn tri_pdf(a: (int, int), b: (int, int), c: (int, int), x: (int, int)) -> (
    int,
    int,
) {
    if q_lt(x, a) || q_lt(b, x) {
        q_int(0)
    } else if q_eq(x, c) {
        (2 * (a.1 * b.1), b.0 * a.1 - a.0 * b.1)
    } else if q_lt(x, c) {
        let xa = x.0 * a.1 - a.0 * x.1;
        let ba = b.0 * a.1 - a.0 * b.1;
        let ca = c.0 * a.1 - a.0 * c.1;
        (2 * (xa * (b.1 * (c.1 * a.1))), x.1 * (ba * ca))
    } else {
        let bx = b.0 * x.1 - x.0 * b.1;
        let ba = b.0 * a.1 - a.0 * b.1;
        let bc = b.0 * c.1 - c.0 * b.1;
        (2 * (bx * (a.1 * (b.1 * c.1))), x.1 * (ba * bc))
    }
}

/// Cumulative probability at `x`: 0 up to `min`, the antiderivative
/// `(x-min)^2/((max-min)(mode-min))` of the rising branch up to the mode,
/// `1 - (max-x)^2/((max-min)(max-mode))` up to `max`, and 1 beyond.
pub open spec fn tri_cdf(a: (int, int), b: (int, int), c: (int, int), x: (int, int)) -> (
    int,
    int,
) {
    if q_le(x, a) {
        q_int(0)
    } else if q_le(x, c) {
        let xa = x.0 * a.1 - a.0 * x.1;
        let ba = b.0 * a.1 - a.0 * b.1;
        let ca = c.0 * a.1 - a.0 * c.1;
        (xa * (xa * (b.1 * c.1)), (x.1 * x.1) * (ba * ca))
    } else if q_lt(x, b) {
        let bx = b.0 * x.1 - x.0 * b.1;
        let ba = b.0 * a.1 - a.0 * b.1;
        let bc = b.0 * c.1 - c.0 * b.1;
        ((x.1 * x.1) * (ba * bc) - bx * (bx * (a.1 * c.1)), (x.1 * x.1) * (ba * bc))
    } else {
        q_int(1)
    }
}

/// Argument of the logarithm in the entropy `1/2 + ln((max-min)/2)`.
pub open spec fn tri_entropy_arg(a: (int, int), b: (int, int)) -> (int, int) {
    (b.0 * a.1 - a.0 * b.1, 2 * (b.1 * a.1))
}

/// Numerator, over the common denominator, of the cubic factor
/// `(min+max-2 mode)(2 min-max-mode)(min-2 max+mode)` of the skewness.
pub open spec fn tri_skew_p(a: (int, int), b: (int, int), c: (int, int)) -> int {
    let x = a.0 * (b.1 * c.1);
    let y = b.0 * (a.1 * c.1);
    let z = c.0 * (a.1 * b.1);
    (((x + y) - 2 * z) * ((2 * x - y) - z)) * ((x - 2 * y) + z)
}

#[derive(Clone, Copy, PartialEq, Eq, Structural, Debug)]
pub struct Triangular {
    pub min: Rat,
    pub max: Rat,
    pub mode: Rat,
}

impl Triangular {
    pub open spec fn wf(&self) -> bool {
        tri_wf(self.min@, self.max@, self.mode@)
    }

    /// Parameters lie within the magnitude bound `b`.
    pub open spec fn params_bounded(&self, b: int) -> bool {
        &&& q_bounded(self.min@, b)
        &&& q_bounded(self.max@, b)
        &&& q_bounded(self.mode@, b)
    }

    /// Validating factory: accepts exactly the finite triples with
    /// `min <= mode <= max` and `min != max`, and rejects every other
    /// parameter set (not-a-number, infinite, or disordered) with the one
    /// error this library surfaces.
    pub fn new(min: Val, max: Val, mode: Val) -> (r: Result<Triangular, StatsError>)
        requires
            val_wf(min),
            val_wf(max),
            val_wf(mode),
            val_bounded(min, NEW_BOUND as int),
            val_bounded(max, NEW_BOUND as int),
            val_bounded(mode, NEW_BOUND as int),
        ensures
            r is Ok <==> tri_params_ok(min, max, mode),
            r matches Ok(t) ==> t.min == min->0 && t.max == max->0 && t.mode == mode->0
                && t.wf(),
            r matches Err(e) ==> e == StatsError::BadParams,
    {
        let a = match min {
            Val::Fin(v) => v,
            _ => { return Err(StatsError::BadParams); },
        };
        let b = match max {
            Val::Fin(v) => v,
            _ => { return Err(StatsError::BadParams); },
        };
        let c = match mode {
            Val::Fin(v) => v,
            _ => { return Err(StatsError::BadParams); },
        };
        proof {
            lemma_abs_mul(b@.0, c@.1, 9223372036854775808, 9223372036854775808);
            lemma_abs_mul(c@.0, b@.1, 9223372036854775808, 9223372036854775808);
            lemma_abs_mul(c@.0, a@.1, 9223372036854775808, 9223372036854775808);
            lemma_abs_mul(a@.0, c@.1, 9223372036854775808, 9223372036854775808);
            lemma_abs_mul(a@.0, b@.1, 9223372036854775808, 9223372036854775808);
            lemma_abs_mul(b@.0, a@.1, 9223372036854775808, 9223372036854775808);
        }
        if b.lt(&c) || c.lt(&a) {
            return Err(StatsError::BadParams);
        }
        if a.eq_val(&b) {
            return Err(StatsError::BadParams);
        }
        proof {
            lemma_q_le_trans(a@, c@, b@);
        }
        Ok(Triangular { min: a, max: b, mode: c })
    }

    pub fn min(&self) -> (r: Rat)
        ensures
            r == self.min,
    {
        self.min
    }

    pub fn max(&self) -> (r: Rat)
        ensures
            r == self.max,
    {
        self.max
    }

    pub fn mode(&self) -> (r: Rat)
        ensures
            r == self.mode,
    {
        self.mode
    }

    /// Exact mean `(min + max + mode) / 3`.
    pub fn mean(&self) -> (r: Rat)
        requires
            self.wf(),
            self.params_bounded(EVAL_BOUND as int),
        ensures
            r@ == tri_mean(self.min@, self.max@, self.mode@),
            r.wf(),
    {
        let a = self.min;
        let b = self.max;
        let c = self.mode;
        proof {
            lemma_abs_mul(b@.1, c@.1, 32768, 32768);
            lemma_abs_mul(a@.0, b@.1 * c@.1, 32768, 1073741824);
            lemma_abs_mul(a@.1, c@.1, 32768, 32768);
            lemma_abs_mul(b@.0, a@.1 * c@.1, 32768, 1073741824);
            lemma_abs_mul(a@.1, b@.1, 32768, 32768);
            lemma_abs_mul(c@.0, a@.1 * b@.1, 32768, 1073741824);
            lemma_abs_mul(a@.1, b@.1 * c@.1, 32768, 1073741824);
            lemma_pos_mul(b@.1, c@.1);
            lemma_pos_mul(a@.1, b@.1 * c@.1);
        }
        let num: i128 = (a.n * (b.d * c.d) + b.n * (a.d * c.d)) + c.n * (a.d * b.d);
        let den: i128 = 3 * (a.d * (b.d * c.d));
        Rat { n: num, d: den }
    }

    /// Exact variance `(min^2 + max^2 + mode^2 - min max - min mode - max mode)/18`;
    /// never negative.
    pub fn variance(&self) -> (r: Rat)
        requires
            self.wf(),
            self.params_bounded(EVAL_BOUND as int),
        ensures
            r@ == tri_variance(self.min@, self.max@, self.mode@),
            r.wf(),
            q_le(q_int(0), r@),
    {
        let a = self.min;
        let b = self.max;
        let c = self.mode;
        proof {
            lemma_abs_mul(b@.1, c@.1, 32768, 32768);
            lemma_abs_mul(a@.1, c@.1, 32768, 32768);
            lemma_abs_mul(a@.1, b@.1, 32768, 32768);
            lemma_abs_mul(a@.0, b@.1 * c@.1, 32768, 1073741824);
            lemma_abs_mul(b@.0, a@.1 * c@.1, 32768, 1073741824);
            lemma_abs_mul(c@.0, a@.1 * b@.1, 32768, 1073741824);
            lemma_abs_mul(a@.1, b@.1 * c@.1, 32768, 1073741824);
            let x = a@.0 * (b@.1 * c@.1);
            let y = b@.0 * (a@.1 * c@.1);
            let z = c@.0 * (a@.1 * b@.1);
            let dd = a@.1 * (b@.1 * c@.1);
            lemma_abs_mul(x, x, 35184372088832, 35184372088832);
            lemma_abs_mul(y, y, 35184372088832, 35184372088832);
            lemma_abs_mul(z, z, 35184372088832, 35184372088832);
            lemma_abs_mul(x, y, 35184372088832, 35184372088832);
            lemma_abs_mul(x, z, 35184372088832, 35184372088832);
            lemma_abs_mul(y, z, 35184372088832, 35184372088832);
            lemma_abs_mul(dd, dd, 35184372088832, 35184372088832);
            lemma_pos_mul(b@.1, c@.1);
            lemma_pos_mul(a@.1, b@.1 * c@.1);
            lemma_pos_mul(dd, dd);
            assert(((x * x + y * y) + z * z) - ((x * y + x * z) + y * z) >= 0)
                by (nonlinear_arith)
            {
                assert(2 * (((x * x + y * y) + z * z) - ((x * y + x * z) + y * z)) == (x - y) * (
                x - y) + (x - z) * (x - z) + (y - z) * (y - z));
                assert((x - y) * (x - y) >= 0);
                assert((x - z) * (x - z) >= 0);
                assert((y - z) * (y - z) >= 0);
            }
        }
        let x: i128 = a.n * (b.d * c.d);
        let y: i128 = b.n * (a.d * c.d);
        let z: i128 = c.n * (a.d * b.d);
        let dd: i128 = a.d * (b.d * c.d);
        let num: i128 = ((x * x + y * y) + z * z) - ((x * y + x * z) + y * z);
        let den: i128 = 18 * (dd * dd);
        let r = Rat { n: num, d: den };
        proof {
            assert(q_le(q_int(0), r@)) by (nonlinear_arith)
                requires
                    r@.0 >= 0,
                    r@.1 > 0,
            ;
        }
        r
    }

    /// Standard deviation as the exact square root `sqrt(variance)`.
    pub fn std_dev(&self) -> (r: RootExpr)
        requires
            self.wf(),
            self.params_bounded(EVAL_BOUND as int),
        ensures
            r.base@ == q_int(0),
            r.coeff@ == q_int(1),
            r.radicand@ == tri_variance(self.min@, self.max@, self.mode@),
            root_wf(r),
    {
        let v = self.variance();
        RootExpr { base: Rat::from_int(0), coeff: Rat::from_int(1), radicand: v }
    }

    /// Entropy `1/2 + ln((max - min)/2)` in exact symbolic form.
    pub fn entropy(&self) -> (r: LogExpr)
        requires
            self.wf(),
            self.params_bounded(EVAL_BOUND as int),
        ensures
            r.base@ == (1int, 2int),
            r.coeff@ == q_int(1),
            r.arg@ == tri_entropy_arg(self.min@, self.max@),
            log_expr_wf(r),
    {
        let a = self.min;
        let b = self.max;
        proof {
            lemma_abs_mul(b@.0, a@.1, 32768, 32768);
            lemma_abs_mul(a@.0, b@.1, 32768, 32768);
            lemma_abs_mul(b@.1, a@.1, 32768, 32768);
            lemma_pos_mul(b@.1, a@.1);
            assert(q_lt(q_int(0), tri_entropy_arg(a@, b@))) by (nonlinear_arith)
                requires
                    q_wf(a@),
                    q_wf(b@),
                    q_lt(a@, b@),
            ;
        }
        let num: i128 = b.n * a.d - a.n * b.d;
        let den: i128 = 2 * (b.d * a.d);
        LogExpr { base: Rat { n: 1, d: 2 }, coeff: Rat::from_int(1), arg: Rat { n: num, d: den } }
    }

    /// Skewness `sqrt(2) (min+max-2 mode)(2 min-max-mode)(min-2 max+mode)
    /// / (5 (min^2+max^2+mode^2-min max-min mode-max mode)^(3/2))` as the
    /// exact scaled root `coeff * sqrt(radicand)` with
    /// `coeff = P d / (5 Q^2)` and `radicand = 2 Q / d^2` over the cleared
    /// numerators `P`, `Q` and the common denominator `d`.
    pub fn skewness(&self) -> (r: RootExpr)
        requires
            self.wf(),
            self.params_bounded(SKEW_BOUND as int),
        ensures
            r.base@ == q_int(0),
            ({
                let a = self.min@;
                let b = self.max@;
                let c = self.mode@;
                let dd = a.1 * (b.1 * c.1);
                let p = tri_skew_p(a, b, c);
                let q = tri_var_num(a, b, c);
                &&& r.coeff@ == (p * dd, 5 * (q * q))
                &&& r.radicand@ == (2 * q, dd * dd)
            }),
            root_wf(r),
    {
        let a = self.min;
        let b = self.max;
        let c = self.mode;
        proof {
            lemma_abs_mul(b@.1, c@.1, 512, 512);
            lemma_abs_mul(a@.1, c@.1, 512, 512);
            lemma_abs_mul(a@.1, b@.1, 512, 512);
            lemma_abs_mul(a@.0, b@.1 * c@.1, 512, 262144);
            lemma_abs_mul(b@.0, a@.1 * c@.1, 512, 262144);
            lemma_abs_mul(c@.0, a@.1 * b@.1, 512, 262144);
            lemma_abs_mul(a@.1, b@.1 * c@.1, 512, 262144);
            let x = a@.0 * (b@.1 * c@.1);
            let y = b@.0 * (a@.1 * c@.1);
            let z = c@.0 * (a@.1 * b@.1);
            let dd = a@.1 * (b@.1 * c@.1);
            lemma_abs_mul((x + y) - 2 * z, (2 * x - y) - z, 536870912, 536870912);
            lemma_abs_mul(((x + y) - 2 * z) * ((2 * x - y) - z), (x - 2 * y) + z,
                288230376151711744, 536870912);
            lemma_abs_mul(x, x, 134217728, 134217728);
            lemma_abs_mul(y, y, 134217728, 134217728);
            lemma_abs_mul(z, z, 134217728, 134217728);
            lemma_abs_mul(x, y, 134217728, 134217728);
            lemma_abs_mul(x, z, 134217728, 134217728);
            lemma_abs_mul(y, z, 134217728, 134217728);
            let p = (((x + y) - 2 * z) * ((2 * x - y) - z)) * ((x - 2 * y) + z);
            let q = ((x * x + y * y) + z * z) - ((x * y + x * z) + y * z);
            lemma_abs_mul(p, dd, 154742504910672534362390528, 134217728);
            lemma_abs_mul(q, q, 108086391056891904, 108086391056891904);
            lemma_abs_mul(dd, dd, 134217728, 134217728);
            lemma_pos_mul(b@.1, c@.1);
            lemma_pos_mul(a@.1, b@.1 * c@.1);
            lemma_pos_mul(dd, dd);
            assert(q > 0) by (nonlinear_arith)
                requires
                    q == ((x * x + y * y) + z * z) - ((x * y + x * z) + y * z),
                    x == a@.0 * (b@.1 * c@.1),
                    y == b@.0 * (a@.1 * c@.1),
                    z == c@.0 * (a@.1 * b@.1),
                    q_wf(a@),
                    q_wf(b@),
                    q_wf(c@),
                    q_lt(a@, b@),
            {
                assert(x - y == (a@.0 * b@.1 - b@.0 * a@.1) * c@.1);
                assert(a@.0 * b@.1 - b@.0 * a@.1 < 0);
                assert((x - y) * (x - y) > 0);
                assert(2 * q == (x - y) * (x - y) + (x - z) * (x - z) + (y - z) * (y - z));
                assert((x - z) * (x - z) >= 0);
                assert((y - z) * (y - z) >= 0);
            }
            lemma_pos_mul(q, q);
        }
        let x: i128 = a.n * (b.d * c.d);
        let y: i128 = b.n * (a.d * c.d);
        let z: i128 = c.n * (a.d * b.d);
        let dd: i128 = a.d * (b.d * c.d);
        let p: i128 = (((x + y) - 2 * z) * ((2 * x - y) - z)) * ((x - 2 * y) + z);
        let q: i128 = ((x * x + y * y) + z * z) - ((x * y + x * z) + y * z);
        let coeff = Rat { n: p * dd, d: 5 * (q * q) };
        let radicand = Rat { n: 2 * q, d: dd * dd };
        proof {
            assert(q_le(q_int(0), radicand@)) by (nonlinear_arith)
                requires
                    radicand@.0 >= 0,
                    radicand@.1 > 0,
            ;
        }
        RootExpr { base: Rat::from_int(0), coeff, radicand }
    }

    /// Median: if the mode is at or past the domain midpoint the rising
    /// branch is inverted, `min + sqrt((max-min)(mode-min)/2)`; otherwise the
    /// falling branch, `max - sqrt((max-min)(max-mode)/2)`. The split selects
    /// the radicand that is computed without cancellation; both are exact
    /// here, and the selection is preserved as the contract states it.
    pub fn median(&self) -> (r: Option<RootExpr>)
        requires
            self.wf(),
            self.params_bounded(EVAL_BOUND as int),
        ensures
            r is Some,
            r matches Some(e) ==> {
                let a = self.min@;
                let b = self.max@;
                let c = self.mode@;
                let mid = (a.0 * b.1 + b.0 * a.1, 2 * (a.1 * b.1));
                let ba = b.0 * a.1 - a.0 * b.1;
                &&& root_wf(e)
                &&& if q_le(mid, c) {
                    &&& e.base@ == a
                    &&& e.coeff@ == q_int(1)
                    &&& e.radicand@ == (ba * (c.0 * a.1 - a.0 * c.1), 2 * ((b.1 * a.1) * (c.1
                        * a.1)))
                } else {
                    &&& e.base@ == b
                    &&& e.coeff@ == (-1int, 1int)
                    &&& e.radicand@ == (ba * (b.0 * c.1 - c.0 * b.1), 2 * ((b.1 * a.1) * (b.1
                        * c.1)))
                }
            },
    {
        let a = self.min;
        let b = self.max;
        let c = self.mode;
        proof {
            lemma_abs_mul(a@.0, b@.1, 32768, 32768);
            lemma_abs_mul(b@.0, a@.1, 32768, 32768);
            lemma_abs_mul(a@.1, b@.1, 32768, 32768);
            lemma_abs_mul(a@.0 * b@.1 + b@.0 * a@.1, c@.1, 2147483648, 32768);
            lemma_abs_mul(c@.0, 2 * (a@.1 * b@.1), 32768, 2147483648);
            lemma_pos_mul(a@.1, b@.1);
        }
        let mid = Rat { n: a.n * b.d + b.n * a.d, d: 2 * (a.d * b.d) };
        proof {
            lemma_abs_mul(c@.0, a@.1, 32768, 32768);
            lemma_abs_mul(a@.0, c@.1, 32768, 32768);
            lemma_abs_mul(b@.0, c@.1, 32768, 32768);
            lemma_abs_mul(c@.0, b@.1, 32768, 32768);
            let ba = b@.0 * a@.1 - a@.0 * b@.1;
            let ca = c@.0 * a@.1 - a@.0 * c@.1;
            let bc = b@.0 * c@.1 - c@.0 * b@.1;
            lemma_abs_mul(ba, ca, 2147483648, 2147483648);
            lemma_abs_mul(ba, bc, 2147483648, 2147483648);
            lemma_abs_mul(b@.1, a@.1, 32768, 32768);
            lemma_abs_mul(c@.1, a@.1, 32768, 32768);
            lemma_abs_mul(b@.1, c@.1, 32768, 32768);
            lemma_abs_mul(b@.1 * a@.1, c@.1 * a@.1, 1073741824, 1073741824);
            lemma_abs_mul(b@.1 * a@.1, b@.1 * c@.1, 1073741824, 1073741824);
            lemma_pos_mul(b@.1, a@.1);
            lemma_pos_mul(c@.1, a@.1);
            lemma_pos_mul(b@.1, c@.1);
            lemma_pos_mul(b@.1 * a@.1, c@.1 * a@.1);
            lemma_pos_mul(b@.1 * a@.1, b@.1 * c@.1);
        }
        if mid.le(&c) {
            let rad = Rat { n: (b.n * a.d - a.n * b.d) * (c.n * a.d - a.n * c.d), d: 2 * ((b.d
                * a.d) * (c.d * a.d)) };
            proof {
                assert(rad@.0 >= 0 && q_le(q_int(0), rad@)) by (nonlinear_arith)
                    requires
                        rad@.0 == (b@.0 * a@.1 - a@.0 * b@.1) * (c@.0 * a@.1 - a@.0 * c@.1),
                        rad@.1 > 0,
                        q_wf(a@) && q_wf(b@) && q_wf(c@),
                        q_lt(a@, b@),
                        q_le(a@, c@),
                ;
            }
            Some(RootExpr { base: a, coeff: Rat::from_int(1), radicand: rad })
        } else {
            let rad = Rat { n: (b.n * a.d - a.n * b.d) * (b.n * c.d - c.n * b.d), d: 2 * ((b.d
                * a.d) * (b.d * c.d)) };
            proof {
                assert(rad@.0 >= 0 && q_le(q_int(0), rad@)) by (nonlinear_arith)
                    requires
                        rad@.0 == (b@.0 * a@.1 - a@.0 * b@.1) * (b@.0 * c@.1 - c@.0 * b@.1),
                        rad@.1 > 0,
                        q_wf(a@) && q_wf(b@) && q_wf(c@),
                        q_lt(a@, b@),
                        q_le(c@, b@),
                ;
            }
            Some(RootExpr { base: b, coeff: Rat { n: -1, d: 1 }, radicand: rad })
        }
    }

    /// Exact density at `x`; never negative.
    pub fn pdf(&self, x: &Rat) -> (r: Rat)
        requires
            self.wf(),
            self.params_bounded(EVAL_BOUND as int),
            x.wf(),
            q_bounded(x@, EVAL_BOUND as int),
        ensures
            r@ == tri_pdf(self.min@, self.max@, self.mode@, x@),
            r.wf(),
            q_le(q_int(0), r@),
    {
        let a = self.min;
        let b = self.max;
        let c = self.mode;
        proof {
            lemma_abs_mul(x@.0, a@.1, 32768, 32768);
            lemma_abs_mul(a@.0, x@.1, 32768, 32768);
            lemma_abs_mul(b@.0, x@.1, 32768, 32768);
            lemma_abs_mul(x@.0, b@.1, 32768, 32768);
            lemma_abs_mul(x@.0, c@.1, 32768, 32768);
            lemma_abs_mul(c@.0, x@.1, 32768, 32768);
            lemma_abs_mul(a@.1, b@.1, 32768, 32768);
            lemma_abs_mul(b@.0, a@.1, 32768, 32768);
            lemma_abs_mul(a@.0, b@.1, 32768, 32768);
        }
        if x.lt(&a) || b.lt(x) {
            let r = Rat::from_int(0);
            proof {
                assert(q_le(q_int(0), r@)) by (nonlinear_arith)
                    requires
                        r@ == (0int, 1int),
                ;
            }
            return r;
        }
        if x.eq_val(&c) {
            let r = Rat { n: 2 * (a.d * b.d), d: b.n * a.d - a.n * b.d };
            proof {
                lemma_pos_mul(a@.1, b@.1);
                assert(q_le(q_int(0), r@)) by (nonlinear_arith)
                    requires
                        r@.0 >= 0,
                        r@.1 > 0,
                ;
            }
            return r;
        }
        if x.lt(&c) {
            proof {
                lemma_abs_mul(c@.0, a@.1, 32768, 32768);
                lemma_abs_mul(a@.0, c@.1, 32768, 32768);
                lemma_abs_mul(c@.1, a@.1, 32768, 32768);
                lemma_abs_mul(b@.1, c@.1 * a@.1, 32768, 1073741824);
                let xa = x@.0 * a@.1 - a@.0 * x@.1;
                let ba = b@.0 * a@.1 - a@.0 * b@.1;
                let ca = c@.0 * a@.1 - a@.0 * c@.1;
                lemma_abs_mul(xa, b@.1 * (c@.1 * a@.1), 2147483648, 35184372088832);
                lemma_abs_mul(ba, ca, 2147483648, 2147483648);
                lemma_abs_mul(x@.1, ba * ca, 32768, 4611686018427387904);
                lemma_q_le_lt_trans(a@, x@, c@);
                lemma_pos_mul(ba, ca);
                lemma_pos_mul(x@.1, ba * ca);
                lemma_pos_mul(c@.1, a@.1);
                lemma_pos_mul(b@.1, c@.1 * a@.1);
            }
            let xa: i128 = x.n * a.d - a.n * x.d;
            let ba: i128 = b.n * a.d - a.n * b.d;
            let ca: i128 = c.n * a.d - a.n * c.d;
            let r = Rat { n: 2 * (xa * (b.d * (c.d * a.d))), d: x.d * (ba * ca) };
            proof {
                assert(q_le(q_int(0), r@)) by (nonlinear_arith)
                    requires
                        r@.0 == 2 * ((x@.0 * a@.1 - a@.0 * x@.1) * (b@.1 * (c@.1 * a@.1))),
                        r@.1 > 0,
                        x@.0 * a@.1 - a@.0 * x@.1 >= 0,
                        b@.1 > 0,
                        c@.1 > 0,
                        a@.1 > 0,
                ;
            }
            r
        } else {
            proof {
                lemma_abs_mul(b@.0, c@.1, 32768, 32768);
                lemma_abs_mul(c@.0, b@.1, 32768, 32768);
                lemma_abs_mul(b@.1, c@.1, 32768, 32768);
                lemma_abs_mul(a@.1, b@.1 * c@.1, 32768, 1073741824);
                let bx = b@.0 * x@.1 - x@.0 * b@.1;
                let ba = b@.0 * a@.1 - a@.0 * b@.1;
                let bc = b@.0 * c@.1 - c@.0 * b@.1;
                lemma_abs_mul(bx, a@.1 * (b@.1 * c@.1), 2147483648, 35184372088832);
                lemma_abs_mul(ba, bc, 2147483648, 2147483648);
                lemma_abs_mul(x@.1, ba * bc, 32768, 4611686018427387904);
                lemma_q_lt_le_trans(c@, x@, b@);
                lemma_pos_mul(ba, bc);
                lemma_pos_mul(x@.1, ba * bc);
                lemma_pos_mul(b@.1, c@.1);
                lemma_pos_mul(a@.1, b@.1 * c@.1);
            }
            let bx: i128 = b.n * x.d - x.n * b.d;
            let ba: i128 = b.n * a.d - a.n * b.d;
            let bc: i128 = b.n * c.d - c.n * b.d;
            let r = Rat { n: 2 * (bx * (a.d * (b.d * c.d))), d: x.d * (ba * bc) };
            proof {
                assert(q_le(q_int(0), r@)) by (nonlinear_arith)
                    requires
                        r@.0 == 2 * ((b@.0 * x@.1 - x@.0 * b@.1) * (a@.1 * (b@.1 * c@.1))),
                        r@.1 > 0,
                        b@.0 * x@.1 - x@.0 * b@.1 >= 0,
                        a@.1 > 0,
                        b@.1 > 0,
                        c@.1 > 0,
                ;
            }
            r
        }
    }

    /// Exact cumulative probability at `x`, total over all rationals by
    /// clamping to 0 below the domain and 1 at and beyond its upper end.
    pub fn cdf(&self, x: &Rat) -> (r: Rat)
        requires
            self.wf(),
            self.params_bounded(EVAL_BOUND as int),
            x.wf(),
            q_bounded(x@, EVAL_BOUND as int),
        ensures
            r@ == tri_cdf(self.min@, self.max@, self.mode@, x@),
            r.wf(),
    {
        let a = self.min;
        let b = self.max;
        let c = self.mode;
        proof {
            lemma_abs_mul(x@.0, a@.1, 32768, 32768);
            lemma_abs_mul(a@.0, x@.1, 32768, 32768);
            lemma_abs_mul(x@.0, c@.1, 32768, 32768);
            lemma_abs_mul(c@.0, x@.1, 32768, 32768);
            lemma_abs_mul(x@.0, b@.1, 32768, 32768);
            lemma_abs_mul(b@.0, x@.1, 32768, 32768);
        }
        if x.le(&a) {
            return Rat::from_int(0);
        }
        if x.le(&c) {
            proof {
                lemma_abs_mul(b@.0, a@.1, 32768, 32768);
                lemma_abs_mul(a@.0, b@.1, 32768, 32768);
                lemma_abs_mul(c@.0, a@.1, 32768, 32768);
                lemma_abs_mul(a@.0, c@.1, 32768, 32768);
                lemma_abs_mul(b@.1, c@.1, 32768, 32768);
                let xa = x@.0 * a@.1 - a@.0 * x@.1;
                let ba = b@.0 * a@.1 - a@.0 * b@.1;
                let ca = c@.0 * a@.1 - a@.0 * c@.1;
                lemma_abs_mul(xa, b@.1 * c@.1, 2147483648, 1073741824);
                lemma_abs_mul(xa, xa * (b@.1 * c@.1), 2147483648, 2305843009213693952);
                lemma_abs_mul(x@.1, x@.1, 32768, 32768);
                lemma_abs_mul(ba, ca, 2147483648, 2147483648);
                lemma_abs_mul(x@.1 * x@.1, ba * ca, 1073741824, 4611686018427387904);
                lemma_q_lt_le_trans(a@, x@, c@);
                lemma_pos_mul(x@.1, x@.1);
                lemma_pos_mul(ba, ca);
                lemma_pos_mul(x@.1 * x@.1, ba * ca);
            }
            let xa: i128 = x.n * a.d - a.n * x.d;
            let ba: i128 = b.n * a.d - a.n * b.d;
            let ca: i128 = c.n * a.d - a.n * c.d;
            return Rat { n: xa * (xa * (b.d * c.d)), d: (x.d * x.d) * (ba * ca) };
        }
        if x.lt(&b) {
            proof {
                lemma_abs_mul(b@.0, a@.1, 32768, 32768);
                lemma_abs_mul(a@.0, b@.1, 32768, 32768);
                lemma_abs_mul(b@.0, c@.1, 32768, 32768);
                lemma_abs_mul(c@.0, b@.1, 32768, 32768);
                lemma_abs_mul(a@.1, c@.1, 32768, 32768);
                let bx = b@.0 * x@.1 - x@.0 * b@.1;
                let ba = b@.0 * a@.1 - a@.0 * b@.1;
                let bc = b@.0 * c@.1 - c@.0 * b@.1;
                lemma_abs_mul(bx, a@.1 * c@.1, 2147483648, 1073741824);
                lemma_abs_mul(bx, bx * (a@.1 * c@.1), 2147483648, 2305843009213693952);
                lemma_abs_mul(x@.1, x@.1, 32768, 32768);
                lemma_abs_mul(ba, bc, 2147483648, 2147483648);
                lemma_abs_mul(x@.1 * x@.1, ba * bc, 1073741824, 4611686018427387904);
                lemma_q_lt_le_trans(c@, x@, b@);
                lemma_pos_mul(x@.1, x@.1);
                lemma_pos_mul(ba, bc);
                lemma_pos_mul(x@.1 * x@.1, ba * bc);
            }
            let bx: i128 = b.n * x.d - x.n * b.d;
            let ba: i128 = b.n * a.d - a.n * b.d;
            let bc: i128 = b.n * c.d - c.n * b.d;
            return Rat { n: (x.d * x.d) * (ba * bc) - bx * (bx * (a.d * c.d)), d: (x.d * x.d)
                * (ba * bc) };
        }
        Rat::from_int(1)
    }

    /// Exact log-density: the logarithm of the exact density, `-oo` where the
    /// density is zero. The density and the log-density select the same
    /// branch everywhere, so `pdf(x) = exp(ln_pdf(x))` holds exactly at the
    /// symbolic level.
    pub fn ln_pdf(&self, x: &Rat) -> (r: LogVal)
        requires
            self.wf(),
            self.params_bounded(EVAL_BOUND as int),
            x.wf(),
            q_bounded(x@, EVAL_BOUND as int),
        ensures
            ({
                let p = tri_pdf(self.min@, self.max@, self.mode@, x@);
                &&& (r is NegInf <==> q_eq(p, q_int(0)))
                &&& (r matches LogVal::Ln(v) ==> v@ == p)
            }),
            log_val_wf(r),
    {
        let p = self.pdf(x);
        if p.is_zero() {
            proof {
                assert(q_eq(p@, q_int(0)) == q_eq(tri_pdf(self.min@, self.max@, self.mode@, x@),
                    q_int(0))) by (nonlinear_arith)
                    requires
                        p@ == tri_pdf(self.min@, self.max@, self.mode@, x@),
                ;
            }
            LogVal::NegInf
        } else {
            proof {
                assert(q_lt(q_int(0), p@)) by (nonlinear_arith)
                    requires
                        q_le(q_int(0), p@),
                        !q_eq(p@, q_int(0)),
                        q_wf(p@),
                ;
            }
            LogVal::Ln(p)
        }
    }

    /// Inverse-transform sampling from one uniform variate `u` in `[0, 1)`:
    /// below the area fraction `(mode-min)/(max-min)` the rising branch is
    /// inverted, `min + sqrt(u (max-min)(mode-min))`; otherwise the falling
    /// branch, `max - sqrt((1-u)(max-min)(max-mode))`.
    pub fn sample_transform(&self, u: &Rat) -> (r: RootExpr)
        requires
            self.wf(),
            self.params_bounded(EVAL_BOUND as int),
            u.wf(),
            q_bounded(u@, UNIFORM_BOUND as int),
            q_le(q_int(0), u@),
            q_lt(u@, q_int(1)),
        ensures
            ({
                let a = self.min@;
                let b = self.max@;
                let c = self.mode@;
                let ba = b.0 * a.1 - a.0 * b.1;
                let ca = c.0 * a.1 - a.0 * c.1;
                let bc = b.0 * c.1 - c.0 * b.1;
                let thresh = (ca * b.1, c.1 * ba);
                if q_lt(u@, thresh) {
                    &&& r.base@ == a
                    &&& r.coeff@ == q_int(1)
                    &&& r.radicand@ == (u@.0 * (ba * ca), u@.1 * ((b.1 * a.1) * (c.1 * a.1)))
                } else {
                    &&& r.base@ == b
                    &&& r.coeff@ == (-1int, 1int)
                    &&& r.radicand@ == ((u@.1 - u@.0) * (ba * bc), u@.1 * ((b.1 * a.1) * (b.1
                        * c.1)))
                }
            }),
            root_wf(r),
    {
        let a = self.min;
        let b = self.max;
        let c = self.mode;
        proof {
            lemma_abs_mul(b@.0, a@.1, 32768, 32768);
            lemma_abs_mul(a@.0, b@.1, 32768, 32768);
            lemma_abs_mul(c@.0, a@.1, 32768, 32768);
            lemma_abs_mul(a@.0, c@.1, 32768, 32768);
            lemma_abs_mul(b@.0, c@.1, 32768, 32768);
            lemma_abs_mul(c@.0, b@.1, 32768, 32768);
            let ba = b@.0 * a@.1 - a@.0 * b@.1;
            let ca = c@.0 * a@.1 - a@.0 * c@.1;
            let bc = b@.0 * c@.1 - c@.0 * b@.1;
            lemma_abs_mul(ca, b@.1, 2147483648, 32768);
            lemma_abs_mul(c@.1, ba, 32768, 2147483648);
            lemma_abs_mul(u@.0, c@.1 * ba, 16777216, 70368744177664);
            lemma_abs_mul(ca * b@.1, u@.1, 70368744177664, 16777216);
            lemma_pos_mul(c@.1, ba);
            lemma_abs_mul(ba, ca, 2147483648, 2147483648);
            lemma_abs_mul(ba, bc, 2147483648, 2147483648);
            lemma_abs_mul(u@.0, ba * ca, 16777216, 4611686018427387904);
            lemma_abs_mul(u@.1 - u@.0, ba * bc, 33554432, 4611686018427387904);
            lemma_abs_mul(b@.1, a@.1, 32768, 32768);
            lemma_abs_mul(c@.1, a@.1, 32768, 32768);
            lemma_abs_mul(b@.1, c@.1, 32768, 32768);
            lemma_abs_mul(b@.1 * a@.1, c@.1 * a@.1, 1073741824, 1073741824);
            lemma_abs_mul(b@.1 * a@.1, b@.1 * c@.1, 1073741824, 1073741824);
            lemma_abs_mul(u@.1, (b@.1 * a@.1) * (c@.1 * a@.1), 16777216, 1152921504606846976);
            lemma_abs_mul(u@.1, (b@.1 * a@.1) * (b@.1 * c@.1), 16777216, 1152921504606846976);
            lemma_pos_mul(b@.1, a@.1);
            lemma_pos_mul(c@.1, a@.1);
            lemma_pos_mul(b@.1, c@.1);
            lemma_pos_mul(b@.1 * a@.1, c@.1 * a@.1);
            lemma_pos_mul(b@.1 * a@.1, b@.1 * c@.1);
            lemma_pos_mul(u@.1, (b@.1 * a@.1) * (c@.1 * a@.1));
            lemma_pos_mul(u@.1, (b@.1 * a@.1) * (b@.1 * c@.1));
        }
        let ba: i128 = b.n * a.d - a.n * b.d;
        let ca: i128 = c.n * a.d - a.n * c.d;
        let bc: i128 = b.n * c.d - c.n * b.d;
        let thresh = Rat { n: ca * b.d, d: c.d * ba };
        if u.lt(&thresh) {
            let rad = Rat { n: u.n * (ba * ca), d: u.d * ((b.d * a.d) * (c.d * a.d)) };
            proof {
                assert(rad@.0 >= 0 && q_le(q_int(0), rad@)) by (nonlinear_arith)
                    requires
                        rad@.0 == u@.0 * ((b@.0 * a@.1 - a@.0 * b@.1) * (c@.0 * a@.1 - a@.0
                            * c@.1)),
                        rad@.1 > 0,
                        q_le(q_int(0), u@),
                        q_wf(u@),
                        q_wf(a@) && q_wf(b@) && q_wf(c@),
                        q_lt(a@, b@),
                        q_le(a@, c@),
                ;
            }
            RootExpr { base: a, coeff: Rat::from_int(1), radicand: rad }
        } else {
            let rad = Rat { n: (u.d - u.n) * (ba * bc), d: u.d * ((b.d * a.d) * (b.d * c.d)) };
            proof {
                assert(rad@.0 >= 0 && q_le(q_int(0), rad@)) by (nonlinear_arith)
                    requires
                        rad@.0 == (u@.1 - u@.0) * ((b@.0 * a@.1 - a@.0 * b@.1) * (b@.0 * c@.1
                            - c@.0 * b@.1)),
                        rad@.1 > 0,
                        q_lt(u@, q_int(1)),
                        q_wf(u@),
                        q_wf(a@) && q_wf(b@) && q_wf(c@),
                        q_lt(a@, b@),
                        q_le(c@, b@),
                ;
            }
            RootExpr { base: b, coeff: Rat { n: -1, d: 1 }, radicand: rad }
        }
    }
}

// ---------------------------------------------------------------------------
// Laws of the bounded triple-parameter family. The distribution functions
// above return exactly the rationals `tri_pdf` / `tri_cdf` describe, so these
// statements about the spec functions carry over to every call.
// ---------------------------------------------------------------------------

/// Rising piece of the cumulative distribution stays within `[0, 1]`.
proof fn lemma_rise_in_range(xa: int, ca: int, ba: int, xd: int, b1: int, c1: int)
    by (nonlinear_arith)
    requires
        xa >= 0,
        ca > 0,
        ba > 0,
        xd > 0,
        b1 > 0,
        c1 > 0,
        xa * c1 <= ca * xd,
        ca * b1 <= ba * c1,
    ensures
        0 <= xa * (xa * (b1 * c1)),
        xa * (xa * (b1 * c1)) <= (xd * xd) * (ba * ca),
        (xd * xd) * (ba * ca) > 0,
{
    assert((xa * c1) * (xa * c1) <= (ca * xd) * (ca * xd));
    assert((xa * (xa * (b1 * c1))) * c1 == ((xa * c1) * (xa * c1)) * b1);
    assert(((ca * xd) * (ca * xd)) * b1 == (xd * xd) * (ca * (ca * b1)));
    assert(ca * (ca * b1) <= ca * (ba * c1));
    assert((xd * xd) * (ca * (ca * b1)) <= (xd * xd) * (ca * (ba * c1)));
    assert((xd * xd) * (ca * (ba * c1)) == ((xd * xd) * (ba * ca)) * c1);
    assert((xa * (xa * (b1 * c1))) * c1 <= ((xd * xd) * (ba * ca)) * c1);
}

/// Falling piece of the cumulative distribution stays within `[0, 1]`.
proof fn lemma_fall_in_range(bx: int, bc: int, ba: int, xd: int, a1: int, c1: int)
    by (nonlinear_arith)
    requires
        bx >= 0,
        bc > 0,
        ba > 0,
        xd > 0,
        a1 > 0,
        c1 > 0,
        bx * c1 <= bc * xd,
        bc * a1 <= ba * c1,
    ensures
        0 <= bx * (bx * (a1 * c1)),
        bx * (bx * (a1 * c1)) <= (xd * xd) * (ba * bc),
        (xd * xd) * (ba * bc) > 0,
{
    assert((bx * c1) * (bx * c1) <= (bc * xd) * (bc * xd));
    assert((bx * (bx * (a1 * c1))) * c1 == ((bx * c1) * (bx * c1)) * a1);
    assert(((bc * xd) * (bc * xd)) * a1 == (xd * xd) * (bc * (bc * a1)));
    assert(bc * (bc * a1) <= bc * (ba * c1));
    assert((xd * xd) * (bc * (bc * a1)) <= (xd * xd) * (bc * (ba * c1)));
    assert((xd * xd) * (bc * (ba * c1)) == ((xd * xd) * (ba * bc)) * c1);
    assert((bx * (bx * (a1 * c1))) * c1 <= ((xd * xd) * (ba * bc)) * c1);
}

/// Rising piece is monotone in `x`.
proof fn lemma_rise_monotone(
    xa1: int,
    xa2: int,
    x1d: int,
    x2d: int,
    ba: int,
    ca: int,
    b1: int,
    c1: int,
)
    by (nonlinear_arith)
    requires
        xa1 >= 0,
        xa2 >= 0,
        x1d > 0,
        x2d > 0,
        ba > 0,
        ca > 0,
        b1 > 0,
        c1 > 0,
        xa1 * x2d <= xa2 * x1d,
    ensures
        (xa1 * (xa1 * (b1 * c1))) * ((x2d * x2d) * (ba * ca)) <= (xa2 * (xa2 * (b1 * c1))) * ((
        x1d * x1d) * (ba * ca)),
{
    assert((xa1 * x2d) * (xa1 * x2d) <= (xa2 * x1d) * (xa2 * x1d));
    assert((xa1 * (xa1 * (b1 * c1))) * ((x2d * x2d) * (ba * ca)) == ((xa1 * x2d) * (xa1 * x2d))
        * ((b1 * c1) * (ba * ca)));
    assert((xa2 * (xa2 * (b1 * c1))) * ((x1d * x1d) * (ba * ca)) == ((xa2 * x1d) * (xa2 * x1d))
        * ((b1 * c1) * (ba * ca)));
}

/// Falling piece is monotone in `x`.
proof fn lemma_fall_monotone(
    bx1: int,
    bx2: int,
    x1d: int,
    x2d: int,
    ba: int,
    bc: int,
    a1: int,
    c1: int,
)
    by (nonlinear_arith)
    requires
        bx1 >= 0,
        bx2 >= 0,
        x1d > 0,
        x2d > 0,
        ba > 0,
        bc > 0,
        a1 > 0,
        c1 > 0,
        bx2 * x1d <= bx1 * x2d,
    ensures
        ((x1d * x1d) * (ba * bc) - bx1 * (bx1 * (a1 * c1))) * ((x2d * x2d) * (ba * bc)) <= ((x2d
            * x2d) * (ba * bc) - bx2 * (bx2 * (a1 * c1))) * ((x1d * x1d) * (ba * bc)),
{
    assert((bx2 * x1d) * (bx2 * x1d) <= (bx1 * x2d) * (bx1 * x2d));
    assert((bx2 * (bx2 * (a1 * c1))) * ((x1d * x1d) * (ba * bc)) == ((bx2 * x1d) * (bx2 * x1d))
        * ((a1 * c1) * (ba * bc)));
    assert((bx1 * (bx1 * (a1 * c1))) * ((x2d * x2d) * (ba * bc)) == ((bx1 * x2d) * (bx1 * x2d))
        * ((a1 * c1) * (ba * bc)));
}

/// Rising piece never exceeds the area fraction `(mode-min)/(max-min)`.
proof fn lemma_rise_le_thresh(xa: int, ca: int, ba: int, xd: int, b1: int, c1: int)
    by (nonlinear_arith)
    requires
        xa >= 0,
        ca > 0,
        ba > 0,
        xd > 0,
        b1 > 0,
        c1 > 0,
        xa * c1 <= ca * xd,
    ensures
        (xa * (xa * (b1 * c1))) * (c1 * ba) <= (ca * b1) * ((xd * xd) * (ba * ca)),
{
    assert((xa * c1) * (xa * c1) <= (ca * xd) * (ca * xd));
    assert((xa * (xa * (b1 * c1))) * (c1 * ba) == ((xa * c1) * (xa * c1)) * (b1 * ba));
    assert((ca * b1) * ((xd * xd) * (ba * ca)) == ((ca * xd) * (ca * xd)) * (b1 * ba));
}

/// A multiple of zero is zero (stated for symbolic products).
proof fn lemma_mul_zero(f: int, t: int)
    by (nonlinear_arith)
    requires
        t == 0,
    ensures
        f * t == 0,
{
}

/// Ring identity tying the three pairwise cleared differences together:
/// `(b-a) c.1 - (c-a) b.1 = a.1 (b-c)` on the numerators.
proof fn lemma_cross_diff_identity(a: (int, int), b: (int, int), c: (int, int))
    by (nonlinear_arith)
    ensures
        (b.0 * a.1 - a.0 * b.1) * c.1 - (c.0 * a.1 - a.0 * c.1) * b.1 == a.1 * (b.0 * c.1 - c.0
            * b.1),
{
}

/// Falling piece never falls below the area fraction `(mode-min)/(max-min)`,
/// stated over the cleared differences alone.
#[verifier::rlimit(50)]
proof fn lemma_fall_ge_thresh(
    bx: int,
    ba: int,
    bc: int,
    ca: int,
    a1: int,
    b1: int,
    c1: int,
    xd: int,
)
    by (nonlinear_arith)
    requires
        bx >= 0,
        ba > 0,
        bc > 0,
        a1 > 0,
        b1 > 0,
        c1 > 0,
        xd > 0,
        bx * c1 <= bc * xd,
        ba * c1 - ca * b1 == a1 * bc,
    ensures
        (ca * b1) * ((xd * xd) * (ba * bc)) <= ((xd * xd) * (ba * bc) - bx * (bx * (a1 * c1)))
            * (c1 * ba),
{
    assert((bx * c1) * (bx * c1) <= (bc * xd) * (bc * xd));
    assert((bx * (bx * (a1 * c1))) * (c1 * ba) == ((bx * c1) * (bx * c1)) * (a1 * ba));
    assert(((bx * c1) * (bx * c1)) * (a1 * ba) <= ((bc * xd) * (bc * xd)) * (a1 * ba));
    assert(((bc * xd) * (bc * xd)) * (a1 * ba) == ((xd * xd) * (ba * bc)) * (a1 * bc));
    assert(((xd * xd) * (ba * bc)) * (a1 * bc) == ((xd * xd) * (ba * bc)) * (ba * c1) - ((xd
        * xd) * (ba * bc)) * (ca * b1));
    assert(((xd * xd) * (ba * bc) - bx * (bx * (a1 * c1))) * (c1 * ba) == ((xd * xd) * (ba * bc))
        * (ba * c1) - (bx * (bx * (a1 * c1))) * (c1 * ba));
}

/// When the query point, the mode and the maximum coincide in value, the
/// rising piece of the cumulative distribution is exactly 1.
proof fn lemma_rise_at_top(xa: int, ba: int, ca: int, b1: int, c1: int, xd: int)
    by (nonlinear_arith)
    requires
        b1 > 0,
        c1 > 0,
        xd > 0,
        xa * b1 == ba * xd,
        xa * c1 == ca * xd,
    ensures
        1 * ((xd * xd) * (ba * ca)) <= (xa * (xa * (b1 * c1))) * 1,
{
    assert((xa * b1) * (xa * c1) == (ba * xd) * (ca * xd));
    assert((xa * (xa * (b1 * c1))) * 1 == (xa * b1) * (xa * c1));
    assert((ba * xd) * (ca * xd) == 1 * ((xd * xd) * (ba * ca)));
}

/// Outside the domain the density is exactly zero; with the log-density
/// returning negative infinity exactly on zero density, both out-of-support
/// conventions hold everywhere below the minimum and above the maximum.
pub proof fn lemma_tri_pdf_outside(a: (int, int), b: (int, int), c: (int, int), x: (int, int))
    requires
        tri_wf(a, b, c),
        q_wf(x),
        q_lt(x, a) || q_lt(b, x),
    ensures
        tri_pdf(a, b, c, x) == q_int(0),
{
}

/// The cumulative distribution lies in `[0, 1]` everywhere.
pub proof fn lemma_tri_cdf_range(a: (int, int), b: (int, int), c: (int, int), x: (int, int))
    requires
        tri_wf(a, b, c),
        q_wf(x),
    ensures
        q_wf(tri_cdf(a, b, c, x)),
        q_le(q_int(0), tri_cdf(a, b, c, x)),
        q_le(tri_cdf(a, b, c, x), q_int(1)),
{
    let v = tri_cdf(a, b, c, x);
    if q_le(x, a) {
        assert(q_le(q_int(0), v) && q_le(v, q_int(1)));
    } else if q_le(x, c) {
        lemma_q_lt_le_trans(a, x, c);
        lemma_diff_cross(a, x, c);
        lemma_diff_cross(a, c, b);
        lemma_rise_in_range(
            x.0 * a.1 - a.0 * x.1,
            c.0 * a.1 - a.0 * c.1,
            b.0 * a.1 - a.0 * b.1,
            x.1,
            b.1,
            c.1,
        );
        assert(q_le(q_int(0), v) && q_le(v, q_int(1))) by (nonlinear_arith)
            requires
                q_wf(v),
                v.0 >= 0,
                v.0 <= v.1,
        ;
    } else if q_lt(x, b) {
        lemma_q_le_lt_trans(a, c, x);
        lemma_q_lt_le_trans(c, x, b);
        lemma_diff_cross_upper(b, c, x);
        lemma_diff_cross_upper(b, a, c);
        lemma_fall_in_range(
            b.0 * x.1 - x.0 * b.1,
            b.0 * c.1 - c.0 * b.1,
            b.0 * a.1 - a.0 * b.1,
            x.1,
            a.1,
            c.1,
        );
        assert(q_le(q_int(0), v) && q_le(v, q_int(1))) by (nonlinear_arith)
            requires
                q_wf(v),
                v.0 >= 0,
                v.0 <= v.1,
        ;
    } else {
        assert(q_le(q_int(0), v) && q_le(v, q_int(1)));
    }
}

/// The cumulative distribution is exactly 0 at the lower endpoint of the
/// domain and exactly 1 at the upper endpoint.
pub proof fn lemma_tri_cdf_endpoints(a: (int, int), b: (int, int), c: (int, int))
    requires
        tri_wf(a, b, c),
    ensures
        q_eq(tri_cdf(a, b, c, a), q_int(0)),
        q_eq(tri_cdf(a, b, c, b), q_int(1)),
{
    assert(q_le(a, a));
    assert(!q_le(b, a));
    if q_le(b, c) {
        assert(q_eq(tri_cdf(a, b, c, b), q_int(1))) by (nonlinear_arith)
            requires
                q_wf(a),
                q_wf(b),
                q_wf(c),
                q_lt(a, b),
                q_le(c, b),
                q_le(b, c),
                tri_cdf(a, b, c, b) == ((b.0 * a.1 - a.0 * b.1) * ((b.0 * a.1 - a.0 * b.1) * (b.1
                    * c.1)), (b.1 * b.1) * ((b.0 * a.1 - a.0 * b.1) * (c.0 * a.1 - a.0 * c.1))),
        {
            let ba = b.0 * a.1 - a.0 * b.1;
            let ca = c.0 * a.1 - a.0 * c.1;
            assert(b.0 * c.1 == c.0 * b.1);
            assert(ba * c.1 - ca * b.1 == a.1 * (b.0 * c.1 - c.0 * b.1));
            assert((ba * (ba * (b.1 * c.1))) * 1 - 1 * ((b.1 * b.1) * (ba * ca)) == ba * b.1 * (ba
                * c.1 - ca * b.1));
        }
    } else {
        assert(!q_lt(b, b));
    }
}

/// The cumulative distribution is non-decreasing: for `x1 <= x2`,
/// `cdf(x1) <= cdf(x2)`.
pub proof fn lemma_tri_cdf_monotone(
    a: (int, int),
    b: (int, int),
    c: (int, int),
    x1: (int, int),
    x2: (int, int),
)
    requires
        tri_wf(a, b, c),
        q_wf(x1),
        q_wf(x2),
        q_le(x1, x2),
    ensures
        q_le(tri_cdf(a, b, c, x1), tri_cdf(a, b, c, x2)),
{
    lemma_tri_cdf_range(a, b, c, x1);
    lemma_tri_cdf_range(a, b, c, x2);
    let v1 = tri_cdf(a, b, c, x1);
    let v2 = tri_cdf(a, b, c, x2);
    let ba = b.0 * a.1 - a.0 * b.1;
    let ca = c.0 * a.1 - a.0 * c.1;
    let bc = b.0 * c.1 - c.0 * b.1;
    if q_le(x1, a) {
        lemma_q_le_compat(q_int(0), v1, v2, v2);
    } else if q_le(x1, c) {
        lemma_q_lt_le_trans(a, x1, c);
        assert(!q_le(x2, a)) by {
            lemma_q_lt_le_trans(a, x1, x2);
        }
        if q_le(x2, c) {
            lemma_diff_cross(a, x1, x2);
            lemma_rise_monotone(
                x1.0 * a.1 - a.0 * x1.1,
                x2.0 * a.1 - a.0 * x2.1,
                x1.1,
                x2.1,
                ba,
                ca,
                b.1,
                c.1,
            );
        } else if q_lt(x2, b) {
            lemma_q_lt_le_trans(c, x2, b);
            lemma_diff_cross(a, x1, c);
            lemma_diff_cross_upper(b, c, x2);
            lemma_rise_le_thresh(x1.0 * a.1 - a.0 * x1.1, ca, ba, x1.1, b.1, c.1);
            lemma_cross_diff_identity(a, b, c);
            lemma_fall_ge_thresh(b.0 * x2.1 - x2.0 * b.1, ba, bc, ca, a.1, b.1, c.1, x2.1);
            lemma_pos_mul(c.1, ba);
            lemma_q_le_trans(v1, (ca * b.1, c.1 * ba), v2);
        } else {
            lemma_q_le_compat(v1, v1, q_int(1), v2);
        }
    } else if q_lt(x1, b) {
        lemma_q_le_lt_trans(a, c, x1);
        assert(!q_le(x2, a)) by {
            lemma_q_lt_le_trans(a, x1, x2);
        }
        assert(!q_le(x2, c)) by {
            lemma_q_lt_le_trans(c, x1, x2);
        }
        if q_lt(x2, b) {
            lemma_q_lt_le_trans(c, x1, b);
            lemma_diff_cross_upper(b, x1, x2);
            lemma_fall_monotone(
                b.0 * x1.1 - x1.0 * b.1,
                b.0 * x2.1 - x2.0 * b.1,
                x1.1,
                x2.1,
                ba,
                bc,
                a.1,
                c.1,
            );
        } else {
            lemma_q_le_compat(v1, v1, q_int(1), v2);
        }
    } else {
        // x1 is at or past the maximum, so cdf(x1) = 1, and x2 lies there too.
        lemma_q_le_trans(b, x1, x2);
        assert(!q_le(x2, a)) by {
            lemma_q_lt_le_trans(a, b, x2);
        }
        if q_le(x2, c) {
            // Then x2, the mode and the maximum coincide in value, and the
            // rising piece at that point is exactly 1.
            lemma_q_le_trans(x2, c, b);
            lemma_q_le_trans(c, b, x2);
            lemma_cross_diff_identity(a, x2, b);
            lemma_cross_diff_identity(a, x2, c);
            lemma_mul_zero(a.1, x2.0 * b.1 - b.0 * x2.1);
            lemma_mul_zero(a.1, x2.0 * c.1 - c.0 * x2.1);
            lemma_rise_at_top(x2.0 * a.1 - a.0 * x2.1, ba, ca, b.1, c.1, x2.1);
        } else if q_lt(x2, b) {
            lemma_q_le_lt_trans(b, x2, b);
        } else {
        }
    }
}

} // verus!
