use vstd::prelude::*;

verus! {

// ---------------------------------------------------------------------------
// Exact rational numbers.
//
// A `Rat` is a fraction n/d of two `i128` values with `d > 0`. Fractions are
// not reduced: `1/2` and `2/4` are distinct values of the type that stand for
// the same rational, so contracts compare by cross-multiplication (`q_le`,
// `q_eq`) rather than by `==`. At the specification level a rational is an
// unbounded pair `(int, int)` — numerator first, positive denominator second —
// and all closed-form arithmetic in this crate is stated over such pairs.
//
// Every comparison of this library is exact. The degenerate-parameter tests
// (a shape equal to one, an input equal to a boundary) that a floating-point
// implementation must soften with a rounding tolerance are decided here by
// exact equality of rationals: the tolerance of this library is zero, and the
// regime a parameter falls into is a function of its exact value.
// ---------------------------------------------------------------------------

/// Magnitude bound on the numerator and denominator of the rationals handed to
/// the evaluation operations (density, cumulative probability, moments).
/// Inside those operations denominators are cleared, which multiplies up to
/// eight bounded factors; this bound keeps every such product inside `i128`.
pub const EVAL_BOUND: i128 = 32768;

/// Tighter bound for the skewness of the bounded-triple family, whose cleared
/// form multiplies three quadratic factors and squares a sextic one.
pub const SKEW_BOUND: i128 = 512;

/// Bound on the uniform variate handed to inverse-transform sampling; a draw
/// on a 2^24 grid is exactly representable within it.
pub const UNIFORM_BOUND: i128 = 16777216;

/// Bound on the parameters handed to the validating factories, whose only
/// arithmetic is pairwise cross-multiplication.
pub const NEW_BOUND: i128 = 9223372036854775808;

/// `x` is representable as an `i128`.
pub open spec fn fits(x: int) -> bool {
    i128::MIN <= x && x <= i128::MAX
}

/// Well-formed spec-level rational: positive denominator.
pub open spec fn q_wf(p: (int, int)) -> bool {
    p.1 > 0
}

/// Well-formed and of moderate size: `|numerator| <= b` and `0 < denominator <= b`.
pub open spec fn q_bounded(p: (int, int), b: int) -> bool {
    -b <= p.0 && p.0 <= b && 0 < p.1 && p.1 <= b
}

/// The rational `p` is at most the rational `q` (both well-formed).
pub open spec fn q_le(p: (int, int), q: (int, int)) -> bool {
    p.0 * q.1 <= q.0 * p.1
}

/// Strict order on well-formed rationals.
pub open spec fn q_lt(p: (int, int), q: (int, int)) -> bool {
    p.0 * q.1 < q.0 * p.1
}

/// The two well-formed rationals stand for the same number.
pub open spec fn q_eq(p: (int, int), q: (int, int)) -> bool {
    p.0 * q.1 == q.0 * p.1
}

/// The integer `i` as a rational.
pub open spec fn q_int(i: int) -> (int, int) {
    (i, 1)
}

#[derive(Clone, Copy, PartialEq, Eq, Structural, Debug)]
pub struct Rat {
    pub n: i128,
    pub d: i128,
}

impl View for Rat {
    type V = (int, int);

    open spec fn view(&self) -> (int, int) {
        (self.n as int, self.d as int)
    }
}

impl Rat {
    pub open spec fn wf(&self) -> bool {
        q_wf(self@)
    }

    pub open spec fn bounded(&self, b: int) -> bool {
        q_bounded(self@, b)
    }

    /// The fraction `n / d`.
    pub fn new(n: i128, d: i128) -> (r: Rat)
        requires
            d > 0,
        ensures
            r@ == (n as int, d as int),
    {
        Rat { n, d }
    }

    /// The integer `i` as a rational.
    pub fn from_int(i: i128) -> (r: Rat)
        ensures
            r@ == q_int(i as int),
    {
        Rat { n: i, d: 1 }
    }

    pub fn num(&self) -> (r: i128)
        ensures
            r as int == self@.0,
    {
        self.n
    }

    pub fn den(&self) -> (r: i128)
        ensures
            r as int == self@.1,
    {
        self.d
    }

    /// Exact order test by cross-multiplication.
    pub fn le(&self, o: &Rat) -> (r: bool)
        requires
            self.wf(),
            o.wf(),
            fits(self@.0 * o@.1),
            fits(o@.0 * self@.1),
        ensures
            r == q_le(self@, o@),
    {
        self.n * o.d <= o.n * self.d
    }

    pub fn lt(&self, o: &Rat) -> (r: bool)
        requires
            self.wf(),
            o.wf(),
            fits(self@.0 * o@.1),
            fits(o@.0 * self@.1),
        ensures
            r == q_lt(self@, o@),
    {
        self.n * o.d < o.n * self.d
    }

    /// Exact value equality (indifferent to the representation).
    pub fn eq_val(&self, o: &Rat) -> (r: bool)
        requires
            self.wf(),
            o.wf(),
            fits(self@.0 * o@.1),
            fits(o@.0 * self@.1),
        ensures
            r == q_eq(self@, o@),
    {
        self.n * o.d == o.n * self.d
    }

    pub fn is_zero(&self) -> (r: bool)
        requires
            self.wf(),
        ensures
            r == q_eq(self@, q_int(0)),
    {
        self.n == 0
    }

    pub fn is_pos(&self) -> (r: bool)
        requires
            self.wf(),
        ensures
            r == q_lt(q_int(0), self@),
    {
        proof {
            assert(q_lt(q_int(0), self@) == (self@.0 > 0)) by (nonlinear_arith)
                requires
                    self@.1 > 0,
            ;
        }
        self.n > 0
    }

    pub fn is_one(&self) -> (r: bool)
        requires
            self.wf(),
        ensures
            r == q_eq(self@, q_int(1)),
    {
        proof {
            assert(q_eq(self@, q_int(1)) == (self@.0 == self@.1)) by (nonlinear_arith);
        }
        self.n == self.d
    }
}

/// Magnitude of a product from the magnitudes of the factors.
pub proof fn lemma_abs_mul(x: int, y: int, bx: int, by: int)
    by (nonlinear_arith)
    requires
        -bx <= x <= bx,
        -by <= y <= by,
    ensures
        -(bx * by) <= x * y <= bx * by,
{
}

/// A product of positives is positive.
pub proof fn lemma_pos_mul(x: int, y: int)
    by (nonlinear_arith)
    requires
        x > 0,
        y > 0,
    ensures
        x * y > 0,
{
}

/// `q_le` is transitive on well-formed rationals.
pub proof fn lemma_q_le_trans(p: (int, int), q: (int, int), r: (int, int))
    by (nonlinear_arith)
    requires
        q_wf(p),
        q_wf(q),
        q_wf(r),
        q_le(p, q),
        q_le(q, r),
    ensures
        q_le(p, r),
{
}

/// Mixed strict/non-strict transitivity.
pub proof fn lemma_q_lt_le_trans(p: (int, int), q: (int, int), r: (int, int))
    by (nonlinear_arith)
    requires
        q_wf(p),
        q_wf(q),
        q_wf(r),
        q_lt(p, q),
        q_le(q, r),
    ensures
        q_lt(p, r),
{
}

/// Mixed non-strict/strict transitivity.
pub proof fn lemma_q_le_lt_trans(p: (int, int), q: (int, int), r: (int, int))
    by (nonlinear_arith)
    requires
        q_wf(p),
        q_wf(q),
        q_wf(r),
        q_le(p, q),
        q_lt(q, r),
    ensures
        q_lt(p, r),
{
}

/// Ordering of two values transfers to their cleared distances from a common
/// base `p`: if `q <= r` then the numerator of `q - p` over `r`'s denominator
/// is at most the numerator of `r - p` over `q`'s.
pub proof fn lemma_diff_cross(p: (int, int), q: (int, int), r: (int, int))
    by (nonlinear_arith)
    requires
        q_wf(p),
        q_wf(q),
        q_wf(r),
        q_le(q, r),
    ensures
        (q.0 * p.1 - p.0 * q.1) * r.1 <= (r.0 * p.1 - p.0 * r.1) * q.1,
{
}

/// The mirrored form for distances below a common base `p`: if `q <= r` then
/// the numerator of `p - r` over `q`'s denominator is at most the numerator
/// of `p - q` over `r`'s.
pub proof fn lemma_diff_cross_upper(p: (int, int), q: (int, int), r: (int, int))
    by (nonlinear_arith)
    requires
        q_wf(p),
        q_wf(q),
        q_wf(r),
        q_le(q, r),
    ensures
        (p.0 * r.1 - r.0 * p.1) * q.1 <= (p.0 * q.1 - q.0 * p.1) * r.1,
{
}

/// Replacing either side of `q_le` by an equal-valued rational preserves it.
pub proof fn lemma_q_le_compat(p1: (int, int), p2: (int, int), q1: (int, int), q2: (int, int))
    by (nonlinear_arith)
    requires
        q_wf(p1),
        q_wf(p2),
        q_wf(q1),
        q_wf(q2),
        q_eq(p1, p2),
        q_eq(q1, q2),
        q_le(p1, q1),
    ensures
        q_le(p2, q2),
{
}

} // verus!
