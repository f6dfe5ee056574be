use vstd::prelude::*;

verus! {

/// Reciprocal of the pivot tolerance: a value `v` counts as zero during
/// elimination when `|v| < 1/DELTA_RECIP`, i.e. `|v| < 0.002`.
pub const DELTA_RECIP: i64 = 500;

/// Mathematical model of a rational number: an integer numerator over a
/// positive integer denominator. Not necessarily in lowest terms; value
/// equality is `rat_eqv`.
pub struct Rat {
    pub num: int,
    pub den: int,
}

pub open spec fn iabs(x: int) -> int {
    if x < 0 { -x } else { x }
}

/// A well-formed model value has a positive denominator.
pub open spec fn rat_wf(x: Rat) -> bool {
    x.den > 0
}

/// Two fractions denote the same rational number (cross multiplication).
pub open spec fn rat_eqv(a: Rat, b: Rat) -> bool {
    a.num * b.den == b.num * a.den
}

pub open spec fn rat_zero() -> Rat {
    Rat { num: 0, den: 1 }
}

pub open spec fn rat_one() -> Rat {
    Rat { num: 1, den: 1 }
}

/// Builds a fraction from a raw numerator and denominator, collapsing the
/// zero value to the canonical `0/1`.
pub open spec fn rat_make(n: int, d: int) -> Rat {
    if n == 0 {
        Rat { num: 0, den: 1 }
    } else {
        Rat { num: n, den: d }
    }
}

pub open spec fn rat_add_v(a: Rat, b: Rat) -> Rat {
    rat_make(a.num * b.den + b.num * a.den, a.den * b.den)
}

pub open spec fn rat_sub_v(a: Rat, b: Rat) -> Rat {
    rat_make(a.num * b.den - b.num * a.den, a.den * b.den)
}

pub open spec fn rat_mul_v(a: Rat, b: Rat) -> Rat {
    rat_make(a.num * b.num, a.den * b.den)
}

pub open spec fn rat_neg_v(a: Rat) -> Rat {
    Rat { num: -a.num, den: a.den }
}

/// Reciprocal of a nonzero fraction, with the sign moved to the numerator so
/// the denominator stays positive.
pub open spec fn rat_inv_v(a: Rat) -> Rat {
    if a.num > 0 {
        Rat { num: a.den, den: a.num }
    } else {
        Rat { num: -a.den, den: -a.num }
    }
}

/// Whether a model value is representable by the executable `Ratio` type.
pub open spec fn rat_fits(x: Rat) -> bool {
    &&& -(i64::MAX as int) <= x.num <= i64::MAX as int
    &&& 1 <= x.den <= i64::MAX as int
}

pub open spec fn rat_add_ok(a: Rat, b: Rat) -> bool {
    rat_fits(rat_add_v(a, b))
}

pub open spec fn rat_sub_ok(a: Rat, b: Rat) -> bool {
    rat_fits(rat_sub_v(a, b))
}

pub open spec fn rat_mul_ok(a: Rat, b: Rat) -> bool {
    rat_fits(rat_mul_v(a, b))
}

/// `|x| < 0.002`: the elimination routines treat such an entry as zero.
pub open spec fn rat_small(x: Rat) -> bool {
    DELTA_RECIP * iabs(x.num) < x.den
}

proof fn lemma_mul_bound(a: int, b: int, m: int)
    by (nonlinear_arith)
    requires
        -m <= a <= m,
        -m <= b <= m,
        0 <= m,
    ensures
        -(m * m) <= a * b <= m * m,
{
}

proof fn lemma_mul_bounds(a: int, b: int, ma: int, mb: int)
    by (nonlinear_arith)
    requires
        -ma <= a <= ma,
        -mb <= b <= mb,
        0 <= ma,
        0 <= mb,
    ensures
        -(ma * mb) <= a * b <= ma * mb,
{
}

proof fn lemma_mul_pos(a: int, b: int)
    by (nonlinear_arith)
    requires
        a >= 1,
        b >= 1,
    ensures
        a * b >= 1,
{
}

/// Every well-formed executable fraction denotes a representable value.
pub proof fn lemma_ratio_fits(x: Ratio)
    requires
        x.wf(),
    ensures
        rat_fits(x@),
{
}

pub proof fn lemma_eqv_trans(a: Rat, b: Rat, c: Rat)
    by (nonlinear_arith)
    requires
        rat_wf(a),
        rat_wf(b),
        rat_wf(c),
        rat_eqv(a, b),
        rat_eqv(b, c),
    ensures
        rat_eqv(a, c),
{
}

/// Executable rational number: a fraction of two machine integers with a
/// positive denominator. The numerator stays above `i64::MIN` so that
/// negation never overflows.
#[derive(Clone, Copy, PartialEq, Eq, Structural, Debug)]
pub struct Ratio {
    num: i64,
    den: i64,
}

impl View for Ratio {
    type V = Rat;

    closed spec fn view(&self) -> Rat {
        Rat { num: self.num as int, den: self.den as int }
    }
}

impl Ratio {
    pub open spec fn wf(self) -> bool {
        &&& self@.den > 0
        &&& self@.num > i64::MIN
    }

    pub fn new(num: i64, den: i64) -> (r: Ratio)
        requires
            den > 0,
            num > i64::MIN,
        ensures
            r@ == rat_make(num as int, den as int),
            r.wf(),
    {
        if num == 0 {
            Ratio { num: 0, den: 1 }
        } else {
            Ratio { num, den }
        }
    }

    pub fn from_int(n: i64) -> (r: Ratio)
        requires
            n > i64::MIN,
        ensures
            r@ == (Rat { num: n as int, den: 1 }),
            r.wf(),
    {
        Ratio { num: n, den: 1 }
    }

    pub fn zero() -> (r: Ratio)
        ensures
            r@ == rat_zero(),
            r.wf(),
    {
        Ratio { num: 0, den: 1 }
    }

    pub fn one() -> (r: Ratio)
        ensures
            r@ == rat_one(),
            r.wf(),
    {
        Ratio { num: 1, den: 1 }
    }

    pub fn numer(&self) -> (n: i64)
        ensures
            n as int == self@.num,
    {
        self.num
    }

    pub fn denom(&self) -> (d: i64)
        ensures
            d as int == self@.den,
    {
        self.den
    }

    fn pack(n: i128, d: i128) -> (r: Option<Ratio>)
        requires
            d >= 1,
        ensures
            r is Some <==> rat_fits(rat_make(n as int, d as int)),
            r matches Some(x) ==> x@ == rat_make(n as int, d as int) && x.wf(),
    {
        if n == 0 {
            Some(Ratio { num: 0, den: 1 })
        } else if -(i64::MAX as i128) <= n && n <= i64::MAX as i128 && d <= i64::MAX as i128 {
            Some(Ratio { num: n as i64, den: d as i64 })
        } else {
            None
        }
    }

    pub fn checked_add(&self, other: &Ratio) -> (r: Option<Ratio>)
        requires
            self.wf(),
            other.wf(),
        ensures
            r is Some <==> rat_add_ok(self@, other@),
            r matches Some(x) ==> x@ == rat_add_v(self@, other@) && x.wf(),
    {
        proof {
            lemma_mul_bound(self.num as int, other.den as int, i64::MAX as int);
            lemma_mul_bound(other.num as int, self.den as int, i64::MAX as int);
            lemma_mul_bound(self.den as int, other.den as int, i64::MAX as int);
            lemma_mul_pos(self.den as int, other.den as int);
        }
        let n: i128 = (self.num as i128) * (other.den as i128)
            + (other.num as i128) * (self.den as i128);
        let d: i128 = (self.den as i128) * (other.den as i128);
        Self::pack(n, d)
    }

    pub fn checked_sub(&self, other: &Ratio) -> (r: Option<Ratio>)
        requires
            self.wf(),
            other.wf(),
        ensures
            r is Some <==> rat_sub_ok(self@, other@),
            r matches Some(x) ==> x@ == rat_sub_v(self@, other@) && x.wf(),
    {
        proof {
            lemma_mul_bound(self.num as int, other.den as int, i64::MAX as int);
            lemma_mul_bound(other.num as int, self.den as int, i64::MAX as int);
            lemma_mul_bound(self.den as int, other.den as int, i64::MAX as int);
            lemma_mul_pos(self.den as int, other.den as int);
        }
        let n: i128 = (self.num as i128) * (other.den as i128)
            - (other.num as i128) * (self.den as i128);
        let d: i128 = (self.den as i128) * (other.den as i128);
        Self::pack(n, d)
    }

    pub fn checked_mul(&self, other: &Ratio) -> (r: Option<Ratio>)
        requires
            self.wf(),
            other.wf(),
        ensures
            r is Some <==> rat_mul_ok(self@, other@),
            r matches Some(x) ==> x@ == rat_mul_v(self@, other@) && x.wf(),
    {
        proof {
            lemma_mul_bound(self.num as int, other.num as int, i64::MAX as int);
            lemma_mul_bound(self.den as int, other.den as int, i64::MAX as int);
            lemma_mul_pos(self.den as int, other.den as int);
        }
        let n: i128 = (self.num as i128) * (other.num as i128);
        let d: i128 = (self.den as i128) * (other.den as i128);
        Self::pack(n, d)
    }

    pub fn neg(&self) -> (r: Ratio)
        requires
            self.wf(),
        ensures
            r@ == rat_neg_v(self@),
            r.wf(),
    {
        Ratio { num: -self.num, den: self.den }
    }

    pub fn recip(&self) -> (r: Ratio)
        requires
            self.wf(),
            self@.num != 0,
        ensures
            r@ == rat_inv_v(self@),
            r.wf(),
    {
        if self.num > 0 {
            Ratio { num: self.den, den: self.num }
        } else {
            Ratio { num: -self.den, den: -self.num }
        }
    }

    /// Whether `|self| < 0.002`, the tolerance below which elimination
    /// treats an entry as zero.
    pub fn is_small(&self) -> (r: bool)
        requires
            self.wf(),
        ensures
            r == rat_small(self@),
    {
        let a: i128 = if self.num < 0 {
            -(self.num as i128)
        } else {
            self.num as i128
        };
        proof {
            lemma_mul_bounds(DELTA_RECIP as int, a as int, 500, 0x8000_0000_0000_0000);
        }
        (DELTA_RECIP as i128) * a < self.den as i128
    }

    /// Whether `|1 - self| < 0.002`: such a pivot is left unscaled.
    pub fn near_one(&self) -> (r: bool)
        requires
            self.wf(),
        ensures
            r == rat_small(rat_sub_v(rat_one(), self@)),
    {
        let diff: i128 = self.den as i128 - self.num as i128;
        let a: i128 = if diff < 0 {
            -diff
        } else {
            diff
        };
        proof {
            lemma_mul_bounds(DELTA_RECIP as int, a as int, 500, 0x1_0000_0000_0000_0000);
        }
        let r = (DELTA_RECIP as i128) * a < self.den as i128;
        proof {
            let s = rat_sub_v(rat_one(), self@);
            assert(1 * self@.den == self@.den) by (nonlinear_arith);
            assert(self@.num * 1 == self@.num) by (nonlinear_arith);
            assert(s == rat_make(self@.den - self@.num, self@.den));
            if diff == 0 {
                assert(s == rat_zero());
            } else {
                assert(s == (Rat { num: diff as int, den: self.den as int }));
            }
        }
        r
    }

    /// Whether the two fractions denote the same rational number.
    pub fn eq_val(&self, other: &Ratio) -> (r: bool)
        requires
            self.wf(),
            other.wf(),
        ensures
            r == rat_eqv(self@, other@),
    {
        proof {
            lemma_mul_bound(self.num as int, other.den as int, i64::MAX as int);
            lemma_mul_bound(other.num as int, self.den as int, i64::MAX as int);
        }
        (self.num as i128) * (other.den as i128) == (other.num as i128) * (self.den as i128)
    }
}

} // verus!
