//! Fixed-point scalar arithmetic with exact integer contracts.
//!
//! Every scalar handled by the dual-number types is a `Fixed`: a signed
//! mantissa counting units of one trillionth. Arithmetic is total; an exact
//! outcome that does not fit the mantissa saturates at the representable
//! bounds, the analogue of the floating-point infinities, and quotients are
//! rounded toward negative infinity. Each operation's contract states the
//! exact integer outcome, so callers reason about scalar results with no
//! slack beyond the stated rounding.

use vstd::arithmetic::div_mod::{
    lemma_div_is_ordered, lemma_div_nonincreasing, lemma_div_pos_is_pos,
    lemma_fundamental_div_mod, lemma_fundamental_div_mod_converse,
};
use vstd::prelude::*;

verus! {

/// Fixed-point units per whole number: twelve fractional decimal digits.
pub const SCALE: i128 = 1_000_000_000_000;

/// Absolute tolerance of the tolerant equality on gradients and Hessians:
/// 10^-8, expressed in fixed-point units.
pub const TOLERANCE: i128 = 10_000;

/// A real number in fixed-point representation: `m` counts units of 10^-12.
#[derive(Clone, Copy, Debug, PartialEq, Eq, Structural)]
pub struct Fixed {
    pub m: i128,
}

impl View for Fixed {
    type V = int;

    open spec fn view(&self) -> int {
        self.m as int
    }
}

/// Whether an exact integer outcome fits in the mantissa type.
pub open spec fn in_range(x: int) -> bool {
    i128::MIN <= x <= i128::MAX
}

/// Saturate an exact integer outcome to the representable range.
pub open spec fn clip(x: int) -> int {
    if x > i128::MAX {
        i128::MAX as int
    } else if x < i128::MIN {
        i128::MIN as int
    } else {
        x
    }
}

/// Exact outcome of fixed-point addition.
pub open spec fn add_v(x: int, y: int) -> int {
    clip(x + y)
}

/// Exact outcome of fixed-point subtraction.
pub open spec fn sub_v(x: int, y: int) -> int {
    clip(x - y)
}

/// Exact outcome of fixed-point negation.
pub open spec fn neg_v(x: int) -> int {
    clip(-x)
}

/// Exact outcome of fixed-point multiplication: the rescaled product,
/// saturated when the raw product does not fit the mantissa.
pub open spec fn mul_v(x: int, y: int) -> int {
    if in_range(x * y) {
        (x * y) / (SCALE as int)
    } else {
        clip(x * y)
    }
}

/// Exact outcome of fixed-point division. A zero divisor saturates by the
/// sign of the dividend, mirroring the floating-point convention of signed
/// infinities, with zero over zero fixed to zero.
pub open spec fn div_v(x: int, y: int) -> int {
    if y == 0 {
        if x > 0 {
            i128::MAX as int
        } else if x < 0 {
            i128::MIN as int
        } else {
            0
        }
    } else if !in_range(x * SCALE) {
        if (x > 0) == (y > 0) {
            i128::MAX as int
        } else {
            i128::MIN as int
        }
    } else if y > 0 {
        clip((x * SCALE) / y)
    } else {
        clip(-((x * SCALE) / -y))
    }
}

/// Exact outcome of halving, rounded toward negative infinity.
pub open spec fn half_v(x: int) -> int {
    x / 2
}

/// Exact outcome of scaling by a plain integer factor.
pub open spec fn imul_v(x: int, k: int) -> int {
    clip(x * k)
}

/// Exact outcome of fixed-point absolute value.
pub open spec fn abs_v(x: int) -> int {
    if x >= 0 {
        x
    } else {
        clip(-x)
    }
}

/// The mantissas of a sequence of scalars, as mathematical integers.
pub open spec fn seq_vals(g: Seq<Fixed>) -> Seq<int> {
    Seq::new(g.len(), |i: int| g[i]@)
}

/// The tolerant comparison: two scalars within `TOLERANCE` of each other.
pub open spec fn close_v(x: int, y: int) -> bool {
    -(TOLERANCE as int) <= x - y <= TOLERANCE as int
}

/// Number of power-series terms evaluated by the exponential.
pub const EXP_TERMS: u64 = 96;

/// Number of series terms evaluated by the logarithm.
pub const LN_TERMS: u64 = 160;

/// Exact outcome of a nonnegative integer power.
pub open spec fn pow_pos_v(x: int, n: nat) -> int
    decreases n,
{
    if n == 0 {
        SCALE as int
    } else {
        mul_v(pow_pos_v(x, (n - 1) as nat), x)
    }
}

/// Exact outcome of an integer power: a negative exponent reciprocates the
/// corresponding positive power.
pub open spec fn fpow_v(x: int, p: int) -> int {
    if p >= 0 {
        pow_pos_v(x, p as nat)
    } else {
        div_v(SCALE as int, pow_pos_v(x, (-p) as nat))
    }
}

/// Term `k` of the exponential series: the previous term multiplied by the
/// argument and divided by `k`, so that term `k` approximates `x^k / k!`.
pub open spec fn exp_term_v(x: int, k: nat) -> int
    decreases k,
{
    if k == 0 {
        SCALE as int
    } else {
        mul_v(exp_term_v(x, (k - 1) as nat), x) / (k as int)
    }
}

/// The exponential series summed through term `k`.
pub open spec fn exp_sum_v(x: int, k: nat) -> int
    decreases k,
{
    if k == 0 {
        SCALE as int
    } else {
        add_v(exp_sum_v(x, (k - 1) as nat), exp_term_v(x, k))
    }
}

/// Exact outcome of the fixed-point exponential.
pub open spec fn exp_v(x: int) -> int {
    if x >= 0 {
        exp_sum_v(x, EXP_TERMS as nat)
    } else {
        div_v(SCALE as int, exp_sum_v(neg_v(x), EXP_TERMS as nat))
    }
}

/// Term `j` of the inverse-hyperbolic-tangent series before the odd divisor
/// is applied: `t^(2j+1)`.
pub open spec fn atanh_term_v(t: int, j: nat) -> int
    decreases j,
{
    if j == 0 {
        t
    } else {
        mul_v(atanh_term_v(t, (j - 1) as nat), mul_v(t, t))
    }
}

/// The inverse-hyperbolic-tangent series summed through term `j`.
pub open spec fn atanh_sum_v(t: int, j: nat) -> int
    decreases j,
{
    if j == 0 {
        t
    } else {
        add_v(atanh_sum_v(t, (j - 1) as nat), atanh_term_v(t, j) / (2 * (j as int) + 1))
    }
}

/// Exact outcome of the fixed-point natural logarithm: twice the truncated
/// inverse-hyperbolic-tangent series of `(x - 1) / (x + 1)`; a non-positive
/// argument saturates to the most negative scalar.
pub open spec fn ln_v(x: int) -> int {
    if x <= 0 {
        i128::MIN as int
    } else {
        let t = div_v(sub_v(x, SCALE as int), add_v(x, SCALE as int));
        imul_v(atanh_sum_v(t, LN_TERMS as nat), 2)
    }
}

/// A quotient by a positive divisor stays within the range of its dividend.
pub(crate) proof fn lemma_div_keeps_range(p: int, s: int)
    requires
        in_range(p),
        s >= 1,
    ensures
        in_range(p / s),
        p >= 0 ==> 0 <= p / s <= p,
        p < 0 ==> p <= p / s <= 0,
{
    if p >= 0 {
        lemma_div_pos_is_pos(p, s);
        lemma_div_nonincreasing(p, s);
    } else {
        lemma_div_is_ordered(p, 0, s);
        vstd::arithmetic::div_mod::lemma_div_of0(s);
        lemma_fundamental_div_mod(p, s);
        assert(p <= p / s) by (nonlinear_arith)
            requires
                p < 0,
                s >= 1,
                p == s * (p / s) + p % s,
                0 <= p % s < s,
        {
        }
    }
}

impl Fixed {
    /// The zero scalar.
    pub fn zero() -> (r: Fixed)
        ensures
            r@ == 0,
    {
        Fixed { m: 0 }
    }

    /// The unit scalar.
    pub fn one() -> (r: Fixed)
        ensures
            r@ == SCALE,
    {
        Fixed { m: SCALE }
    }

    /// A whole number, saturated if it does not fit.
    pub fn from_int(v: i64) -> (r: Fixed)
        ensures
            r@ == clip(v * SCALE),
    {
        match (v as i128).checked_mul(SCALE) {
            Some(p) => Fixed { m: p },
            None => {
                if v > 0 {
                    proof {
                        assert(v * SCALE > i128::MAX) by (nonlinear_arith)
                            requires
                                v > 0,
                                !in_range(v as i128 * SCALE),
                                SCALE > 0,
                                v <= i64::MAX,
                        {
                        }
                    }
                    Fixed { m: i128::MAX }
                } else {
                    proof {
                        assert(v * SCALE < i128::MIN) by (nonlinear_arith)
                            requires
                                v <= 0,
                                !in_range(v as i128 * SCALE),
                                SCALE > 0,
                        {
                        }
                    }
                    Fixed { m: i128::MIN }
                }
            },
        }
    }

    /// Fixed-point addition, saturating at the representable bounds.
    pub fn add(self, other: Fixed) -> (r: Fixed)
        ensures
            r@ == add_v(self@, other@),
    {
        match self.m.checked_add(other.m) {
            Some(s) => Fixed { m: s },
            None => {
                if self.m > 0 {
                    Fixed { m: i128::MAX }
                } else {
                    Fixed { m: i128::MIN }
                }
            },
        }
    }

    /// Fixed-point subtraction, saturating at the representable bounds.
    pub fn sub(self, other: Fixed) -> (r: Fixed)
        ensures
            r@ == sub_v(self@, other@),
    {
        match self.m.checked_sub(other.m) {
            Some(s) => Fixed { m: s },
            None => {
                if other.m < 0 {
                    Fixed { m: i128::MAX }
                } else {
                    Fixed { m: i128::MIN }
                }
            },
        }
    }

    /// Fixed-point negation; the most negative mantissa saturates.
    pub fn neg(self) -> (r: Fixed)
        ensures
            r@ == neg_v(self@),
    {
        Fixed { m: 0 }.sub(self)
    }

    /// Fixed-point absolute value; the most negative mantissa saturates.
    pub fn abs(self) -> (r: Fixed)
        ensures
            r@ == abs_v(self@),
    {
        if self.m >= 0 {
            self
        } else {
            self.neg()
        }
    }

    /// Fixed-point multiplication: the rescaled product, rounded toward
    /// negative infinity and saturated when the raw product does not fit.
    pub fn mul(self, other: Fixed) -> (r: Fixed)
        ensures
            r@ == mul_v(self@, other@),
    {
        match self.m.checked_mul(other.m) {
            Some(p) => {
                proof {
                    lemma_div_keeps_range(p as int, SCALE as int);
                }
                match p.checked_div_euclid(SCALE) {
                    Some(q) => Fixed { m: q },
                    None => {
                        proof {
                            assert(false);
                        }
                        Fixed { m: 0 }
                    },
                }
            },
            None => {
                if (self.m > 0) == (other.m > 0) {
                    proof {
                        assert(self@ * other@ > i128::MAX) by (nonlinear_arith)
                            requires
                                !in_range(self@ * other@),
                                (self@ > 0) == (other@ > 0),
                        {
                        }
                    }
                    Fixed { m: i128::MAX }
                } else {
                    proof {
                        assert(self@ * other@ < i128::MIN) by (nonlinear_arith)
                            requires
                                !in_range(self@ * other@),
                                (self@ > 0) != (other@ > 0),
                        {
                        }
                    }
                    Fixed { m: i128::MIN }
                }
            },
        }
    }

    /// Fixed-point division, rounded toward negative infinity for positive
    /// divisors; a zero divisor saturates by the sign of the dividend.
    pub fn div(self, other: Fixed) -> (r: Fixed)
        ensures
            r@ == div_v(self@, other@),
    {
        if other.m == 0 {
            if self.m > 0 {
                Fixed { m: i128::MAX }
            } else if self.m < 0 {
                Fixed { m: i128::MIN }
            } else {
                Fixed { m: 0 }
            }
        } else {
            match self.m.checked_mul(SCALE) {
                Some(p) => {
                    if other.m > 0 {
                        proof {
                            lemma_div_keeps_range(p as int, other@);
                        }
                        match p.checked_div_euclid(other.m) {
                            Some(q) => Fixed { m: q },
                            None => {
                                proof {
                                    assert(false);
                                }
                                Fixed { m: 0 }
                            },
                        }
                    } else if other.m == i128::MIN {
                        // the divisor's magnitude exceeds any dividend, so the
                        // magnitude of the quotient is at most one
                        proof {
                            let d: int = 0x80000000000000000000000000000000;
                            if p >= 0 {
                                lemma_fundamental_div_mod_converse(p as int, d, 0, p as int);
                            } else {
                                lemma_fundamental_div_mod_converse(p as int, d, -1, p + d);
                            }
                        }
                        if p >= 0 {
                            Fixed { m: 0 }
                        } else {
                            Fixed { m: 1 }
                        }
                    } else {
                        let neg_y = match 0i128.checked_sub(other.m) {
                            Some(n) => n,
                            None => {
                                proof {
                                    assert(false);
                                }
                                0
                            },
                        };
                        proof {
                            lemma_div_keeps_range(p as int, neg_y as int);
                        }
                        let q0 = match p.checked_div_euclid(neg_y) {
                            Some(q) => q,
                            None => {
                                proof {
                                    assert(false);
                                }
                                0
                            },
                        };
                        match 0i128.checked_sub(q0) {
                            Some(q) => Fixed { m: q },
                            None => Fixed { m: i128::MAX },
                        }
                    }
                },
                None => {
                    if (self.m > 0) == (other.m > 0) {
                        Fixed { m: i128::MAX }
                    } else {
                        Fixed { m: i128::MIN }
                    }
                },
            }
        }
    }

    /// Halve a scalar, rounding toward negative infinity.
    pub fn half(self) -> (r: Fixed)
        ensures
            r@ == half_v(self@),
    {
        proof {
            lemma_div_keeps_range(self@, 2);
        }
        match self.m.checked_div_euclid(2) {
            Some(q) => Fixed { m: q },
            None => {
                proof {
                    assert(false);
                }
                Fixed { m: 0 }
            },
        }
    }

    /// Scale by a plain integer factor, saturating at the bounds.
    pub fn scale_by(self, k: i64) -> (r: Fixed)
        ensures
            r@ == imul_v(self@, k as int),
    {
        match self.m.checked_mul(k as i128) {
            Some(p) => Fixed { m: p },
            None => {
                if (self.m > 0) == (k > 0) {
                    proof {
                        assert(self@ * k > i128::MAX) by (nonlinear_arith)
                            requires
                                !in_range(self@ * k),
                                (self@ > 0) == (k > 0),
                        {
                        }
                    }
                    Fixed { m: i128::MAX }
                } else {
                    proof {
                        assert(self@ * k < i128::MIN) by (nonlinear_arith)
                            requires
                                !in_range(self@ * k),
                                (self@ > 0) != (k > 0),
                        {
                        }
                    }
                    Fixed { m: i128::MIN }
                }
            },
        }
    }

    /// Divide the mantissa by a plain positive integer, rounding toward
    /// negative infinity.
    pub fn div_int(self, k: u64) -> (r: Fixed)
        requires
            k >= 1,
        ensures
            r@ == self@ / (k as int),
    {
        proof {
            lemma_div_keeps_range(self@, k as int);
        }
        match self.m.checked_div_euclid(k as i128) {
            Some(q) => Fixed { m: q },
            None => {
                proof {
                    assert(false);
                }
                Fixed { m: 0 }
            },
        }
    }

    /// Integer power: repeated fixed-point multiplication, reciprocated for
    /// a negative exponent.
    pub fn fpow(self, p: i64) -> (r: Fixed)
        ensures
            r@ == fpow_v(self@, p as int),
    {
        let n: u64 = if p >= 0 {
            p as u64
        } else {
            (-(p as i128)) as u64
        };
        let mut acc = Fixed::one();
        let mut k: u64 = 0;
        while k < n
            invariant
                k <= n,
                acc@ == pow_pos_v(self@, k as nat),
            decreases n - k,
        {
            acc = acc.mul(self);
            k = k + 1;
        }
        if p >= 0 {
            acc
        } else {
            Fixed::one().div(acc)
        }
    }

    /// The fixed-point exponential: the truncated power series, reciprocated
    /// for a negative argument.
    pub fn exp(self) -> (r: Fixed)
        ensures
            r@ == exp_v(self@),
    {
        if self.m >= 0 {
            Fixed::exp_series(self)
        } else {
            Fixed::one().div(Fixed::exp_series(self.neg()))
        }
    }

    fn exp_series(x: Fixed) -> (r: Fixed)
        ensures
            r@ == exp_sum_v(x@, EXP_TERMS as nat),
    {
        let mut term = Fixed::one();
        let mut sum = Fixed::one();
        let mut k: u64 = 1;
        while k <= EXP_TERMS
            invariant
                1 <= k <= EXP_TERMS + 1,
                term@ == exp_term_v(x@, (k - 1) as nat),
                sum@ == exp_sum_v(x@, (k - 1) as nat),
            decreases EXP_TERMS + 1 - k,
        {
            term = term.mul(x).div_int(k);
            sum = sum.add(term);
            k = k + 1;
        }
        sum
    }

    /// The fixed-point natural logarithm, evaluated through the series for
    /// the inverse hyperbolic tangent of `(x - 1) / (x + 1)`. A non-positive
    /// argument saturates to the most negative scalar, the analogue of the
    /// floating-point convention for the logarithm's domain edge. Accuracy
    /// degrades for arguments far from one, where the series converges
    /// slowly; callers needing full precision there should rescale first.
    pub fn ln(self) -> (r: Fixed)
        ensures
            r@ == ln_v(self@),
    {
        if self.m <= 0 {
            Fixed { m: i128::MIN }
        } else {
            let t = self.sub(Fixed::one()).div(self.add(Fixed::one()));
            let tsq = t.mul(t);
            let mut term = t;
            let mut sum = t;
            let mut j: u64 = 1;
            while j <= LN_TERMS
                invariant
                    1 <= j <= LN_TERMS + 1,
                    tsq@ == mul_v(t@, t@),
                    term@ == atanh_term_v(t@, (j - 1) as nat),
                    sum@ == atanh_sum_v(t@, (j - 1) as nat),
                decreases LN_TERMS + 1 - j,
            {
                term = term.mul(tsq);
                sum = sum.add(term.div_int(2 * j + 1));
                j = j + 1;
            }
            sum.scale_by(2)
        }
    }

    /// The tolerant comparison: within `TOLERANCE` of `other`.
    pub fn close(self, other: Fixed) -> (r: bool)
        ensures
            r == close_v(self@, other@),
    {
        match self.m.checked_sub(other.m) {
            Some(d) => -TOLERANCE <= d && d <= TOLERANCE,
            None => false,
        }
    }

    /// Exact order on the underlying mantissas.
    pub fn lt(self, other: Fixed) -> (r: bool)
        ensures
            r == (self@ < other@),
    {
        self.m < other.m
    }

    /// Exact equality on the underlying mantissas.
    pub fn eq_exact(self, other: Fixed) -> (r: bool)
        ensures
            r == (self@ == other@),
    {
        self.m == other.m
    }

    /// Whether the scalar is strictly positive.
    pub fn is_positive(self) -> (r: bool)
        ensures
            r == (self@ > 0),
    {
        self.m > 0
    }

    /// Whether the scalar is strictly negative.
    pub fn is_negative(self) -> (r: bool)
        ensures
            r == (self@ < 0),
    {
        self.m < 0
    }
}

} // verus!
