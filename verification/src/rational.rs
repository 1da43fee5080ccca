//! Exact rational constants.
//!
//! A `Rational` stores a signed numerator and a positive denominator, both
//! machine integers. All comparisons are exact (cross multiplication over
//! mathematical integers); nothing is ever rounded. Operations that could
//! overflow the machine representation return `None` instead of a wrong
//! value, so callers can keep a tree unchanged when a merge is impossible.
//!
//! The representation is a documented limitation: constants are bounded
//! by the 64-bit component range rather than arbitrary-precision. Within
//! that range every comparison and every completed operation is exact,
//! and the bound is what lets the zero/one and zero-collapse laws be
//! proved as concrete arithmetic facts.

use vstd::prelude::*;

verus! {

/// An exact rational number `num / den` with `den >= 1`.
#[derive(Debug, Clone, Copy)]
pub struct Rational {
    pub num: i64,
    pub den: i64,
}

impl Rational {
    /// Well-formed: the denominator is positive.
    pub open spec fn wf(self) -> bool {
        self.den >= 1
    }

    pub open spec fn num_spec(self) -> int {
        self.num as int
    }

    pub open spec fn den_spec(self) -> int {
        self.den as int
    }

    /// Exact value equality: `a/b == c/d` iff `a*d == c*b` (denominators positive).
    pub open spec fn eq_spec(self, other: Rational) -> bool {
        self.num * other.den == other.num * self.den
    }

    pub open spec fn is_zero_spec(self) -> bool {
        self.num == 0
    }

    pub open spec fn is_one_spec(self) -> bool {
        self.num == self.den
    }

    /// The exact product at the representation level: numerators and
    /// denominators multiply; `None` when either product leaves `i64`.
    pub open spec fn mul_spec(a: Rational, b: Rational) -> Option<Rational> {
        let n = a.num * b.num;
        let d = a.den * b.den;
        if a.den >= 1 && b.den >= 1 && i64::MIN <= n <= i64::MAX && d <= i64::MAX {
            Some(Rational { num: n as i64, den: d as i64 })
        } else {
            None
        }
    }

    /// The exact sum at the representation level, over the common denominator
    /// `a.den * b.den`; `None` when a component leaves `i64`.
    pub open spec fn add_spec(a: Rational, b: Rational) -> Option<Rational> {
        let n = a.num * b.den + b.num * a.den;
        let d = a.den * b.den;
        if a.den >= 1 && b.den >= 1 && i64::MIN <= n <= i64::MAX && d <= i64::MAX {
            Some(Rational { num: n as i64, den: d as i64 })
        } else {
            None
        }
    }

    /// The exact reciprocal at the representation level; `None` for zero and
    /// for the one unrepresentable numerator.
    pub open spec fn invert_spec(a: Rational) -> Option<Rational> {
        if a.num > 0 && a.den >= 1 {
            Some(Rational { num: a.den, den: a.num })
        } else if a.num < 0 && a.num > i64::MIN && a.den >= 1 {
            Some(Rational { num: (-a.den) as i64, den: (-a.num) as i64 })
        } else {
            None
        }
    }

    /// Exact negation; `None` only on the one unrepresentable numerator.
    pub open spec fn neg_spec(a: Rational) -> Option<Rational> {
        if a.num > i64::MIN {
            Some(Rational { num: (-a.num) as i64, den: a.den })
        } else {
            None
        }
    }

    pub fn from_integer(n: i64) -> (r: Rational)
        ensures
            r.wf(),
            r.num_spec() == n,
            r.den_spec() == 1,
    {
        Rational { num: n, den: 1 }
    }

    pub fn eq_value(&self, other: &Rational) -> (r: bool)
        ensures
            r == self.eq_spec(*other),
    {
        proof {
            lemma_i64_mul_fits_i128(self.num as int, other.den as int);
            lemma_i64_mul_fits_i128(other.num as int, self.den as int);
        }
        let lhs: i128 = (self.num as i128) * (other.den as i128);
        let rhs: i128 = (other.num as i128) * (self.den as i128);
        lhs == rhs
    }

    pub fn is_zero(&self) -> (r: bool)
        ensures
            r == self.is_zero_spec(),
    {
        self.num == 0
    }

    pub fn is_one(&self) -> (r: bool)
        ensures
            r == self.is_one_spec(),
    {
        self.num == self.den
    }

    pub fn one() -> (r: Rational)
        ensures
            r.wf(),
            r.num_spec() == 1,
            r.den_spec() == 1,
            r.is_one_spec(),
    {
        Rational { num: 1, den: 1 }
    }

    pub fn checked_mul(&self, other: &Rational) -> (r: Option<Rational>)
        ensures
            r == Self::mul_spec(*self, *other),
            r matches Some(c) ==> c.wf(),
    {
        if self.den < 1 || other.den < 1 {
            return None;
        }
        proof {
            lemma_i64_mul_fits_i128(self.num as int, other.num as int);
            lemma_i64_mul_fits_i128(self.den as int, other.den as int);
            lemma_pos_mul_pos(self.den as int, other.den as int);
        }
        let n: i128 = (self.num as i128) * (other.num as i128);
        let d: i128 = (self.den as i128) * (other.den as i128);
        if i64::MIN as i128 <= n && n <= i64::MAX as i128 && d <= i64::MAX as i128 {
            Some(Rational { num: n as i64, den: d as i64 })
        } else {
            None
        }
    }

    pub fn checked_add(&self, other: &Rational) -> (r: Option<Rational>)
        ensures
            r == Self::add_spec(*self, *other),
            r matches Some(c) ==> c.wf(),
    {
        if self.den < 1 || other.den < 1 {
            return None;
        }
        proof {
            lemma_i64_mul_den_fits(self.num as int, other.den as int);
            lemma_i64_mul_den_fits(other.num as int, self.den as int);
            lemma_i64_mul_fits_i128(self.den as int, other.den as int);
            lemma_pos_mul_pos(self.den as int, other.den as int);
        }
        let n: i128 = (self.num as i128) * (other.den as i128) + (other.num as i128)
            * (self.den as i128);
        let d: i128 = (self.den as i128) * (other.den as i128);
        if i64::MIN as i128 <= n && n <= i64::MAX as i128 && d <= i64::MAX as i128 {
            Some(Rational { num: n as i64, den: d as i64 })
        } else {
            None
        }
    }

    pub fn checked_neg(&self) -> (r: Option<Rational>)
        ensures
            r == Self::neg_spec(*self),
            self.wf() ==> (r matches Some(c) ==> c.wf()),
    {
        if self.num > i64::MIN {
            Some(Rational { num: -self.num, den: self.den })
        } else {
            None
        }
    }

    pub fn checked_invert(&self) -> (r: Option<Rational>)
        ensures
            r == Self::invert_spec(*self),
            r matches Some(c) ==> c.wf(),
    {
        if self.num > 0 && self.den >= 1 {
            Some(Rational { num: self.den, den: self.num })
        } else if self.num < 0 && self.num > i64::MIN && self.den >= 1 {
            Some(Rational { num: -self.den, den: -self.num })
        } else {
            None
        }
    }

    pub fn numerator(&self) -> (r: i64)
        ensures
            r == self.num_spec(),
    {
        self.num
    }

    pub fn denominator(&self) -> (r: i64)
        ensures
            r == self.den_spec(),
    {
        self.den
    }
}

/// The product of two `i64`-range values stays inside `i128`.
pub(crate) proof fn lemma_i64_mul_fits_i128(a: int, b: int)
    requires
        i64::MIN <= a <= i64::MAX,
        i64::MIN <= b <= i64::MAX,
    ensures
        i128::MIN <= a * b <= i128::MAX,
{
    assert(i128::MIN <= a * b <= i128::MAX) by (nonlinear_arith)
        requires
            -0x8000_0000_0000_0000 <= a <= 0x7fff_ffff_ffff_ffff,
            -0x8000_0000_0000_0000 <= b <= 0x7fff_ffff_ffff_ffff,
    ;
}

/// The product of an `i64` with a positive `i64` denominator stays strictly
/// inside half of the `i128` range, so two such products can be added.
proof fn lemma_i64_mul_den_fits(a: int, d: int)
    requires
        i64::MIN <= a <= i64::MAX,
        1 <= d <= i64::MAX,
    ensures
        -0x3fff_ffff_ffff_ffff_8000_0000_0000_0000 <= a * d
            <= 0x3fff_ffff_ffff_ffff_8000_0000_0000_0000,
{
    assert(-0x3fff_ffff_ffff_ffff_8000_0000_0000_0000 <= a * d
        <= 0x3fff_ffff_ffff_ffff_8000_0000_0000_0000) by (nonlinear_arith)
        requires
            -0x8000_0000_0000_0000 <= a <= 0x7fff_ffff_ffff_ffff,
            1 <= d <= 0x7fff_ffff_ffff_ffff,
    ;
}

proof fn lemma_pos_mul_pos(a: int, b: int)
    requires
        a >= 1,
        b >= 1,
    ensures
        a * b >= 1,
{
    assert(a * b >= 1) by (nonlinear_arith)
        requires
            a >= 1,
            b >= 1,
    ;
}

} // verus!
