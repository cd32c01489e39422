//! Exact nonnegative rationals used for rates, proportions and estimated
//! probabilities.

use vstd::prelude::*;

verus! {

/// An exact nonnegative rational `num / den` with 64-bit parts.
///
/// Per-step rates, the quorum proportion and empirical probabilities are
/// carried as values of this type, so every computation on them is exact
/// integer arithmetic.
#[derive(Clone, Copy, Debug, PartialEq, Eq, Structural)]
pub struct Ratio {
    pub num: u64,
    pub den: u64,
}

/// The product of two 64-bit values fits well below `u128::MAX`.
pub proof fn lemma_u64_mul_fits(x: u64, y: u64)
    ensures
        x * y <= 0xffff_ffff_ffff_ffff * 0xffff_ffff_ffff_ffff,
        x * y + 0xffff_ffff_ffff_ffff < u128::MAX,
{
    assert(x * y <= 0xffff_ffff_ffff_ffff * 0xffff_ffff_ffff_ffff)
        by (nonlinear_arith)
        requires x <= 0xffff_ffff_ffff_ffff, y <= 0xffff_ffff_ffff_ffff;
}

impl Ratio {
    /// Well-formed: the denominator is positive.
    pub open spec fn wf(self) -> bool {
        self.den >= 1
    }

    /// `self <= other` as rationals, by cross multiplication.
    pub open spec fn le_spec(self, other: Ratio) -> bool {
        self.num * other.den <= other.num * self.den
    }

    /// The rational is at most one.
    pub open spec fn at_most_one(self) -> bool {
        self.num <= self.den
    }

    pub fn new(num: u64, den: u64) -> (r: Ratio)
        requires
            den >= 1,
        ensures
            r == (Ratio { num, den }),
            r.wf(),
    {
        Ratio { num, den }
    }

    pub fn zero() -> (r: Ratio)
        ensures
            r == (Ratio { num: 0u64, den: 1u64 }),
            r.wf(),
    {
        Ratio { num: 0, den: 1 }
    }

    pub fn one() -> (r: Ratio)
        ensures
            r == (Ratio { num: 1u64, den: 1u64 }),
            r.wf(),
    {
        Ratio { num: 1, den: 1 }
    }

    /// Exact comparison of two rationals.
    pub fn le(self, other: Ratio) -> (r: bool)
        requires
            self.wf(),
            other.wf(),
        ensures
            r == self.le_spec(other),
    {
        proof {
            lemma_u64_mul_fits(self.num, other.den);
            lemma_u64_mul_fits(other.num, self.den);
        }
        let a: u128 = (self.num as u128) * (other.den as u128);
        let b: u128 = (other.num as u128) * (self.den as u128);
        a <= b
    }

    /// `self < other` as rationals, by cross multiplication.
    pub open spec fn lt_spec(self, other: Ratio) -> bool {
        self.num * other.den < other.num * self.den
    }

    /// Exact strict comparison of two rationals.
    pub fn lt(self, other: Ratio) -> (r: bool)
        requires
            self.wf(),
            other.wf(),
        ensures
            r == self.lt_spec(other),
    {
        proof {
            lemma_u64_mul_fits(self.num, other.den);
            lemma_u64_mul_fits(other.num, self.den);
        }
        let a: u128 = (self.num as u128) * (other.den as u128);
        let b: u128 = (other.num as u128) * (self.den as u128);
        a < b
    }

    /// Whether the rational lies in the unit interval.
    pub fn in_unit(self) -> (r: bool)
        requires
            self.wf(),
        ensures
            r == self.at_most_one(),
    {
        self.num <= self.den
    }

    /// `ceil(self * n)` for a proportion `self <= 1`.
    ///
    /// The result is at least one exactly when both factors are nonzero,
    /// and never exceeds `n`.
    pub fn ceil_mul(self, n: u64) -> (r: u64)
        requires
            self.wf(),
            self.at_most_one(),
        ensures
            r == (self.num * n + self.den - 1) / (self.den as int),
            r <= n,
            (r >= 1) == (self.num >= 1 && n >= 1),
    {
        proof {
            lemma_u64_mul_fits(self.num, n);
        }
        let num = self.num as u128;
        let den = self.den as u128;
        let nn = n as u128;
        let q: u128 = (num * nn + den - 1) / den;
        proof {
            let numi = self.num as int;
            let deni = self.den as int;
            let ni = n as int;
            assert(numi * ni <= deni * ni) by (nonlinear_arith)
                requires numi <= deni, ni >= 0;
            assert((numi * ni + deni - 1) / deni <= ni) by (nonlinear_arith)
                requires deni >= 1, numi * ni <= deni * ni;
            assert((numi * ni + deni - 1) / deni >= 0) by (nonlinear_arith)
                requires deni >= 1, numi >= 0, ni >= 0;
            assert(numi >= 1 && ni >= 1 ==> (numi * ni + deni - 1) / deni >= 1)
                by (nonlinear_arith)
                requires deni >= 1;
            assert(numi == 0 || ni == 0 ==> (numi * ni + deni - 1) / deni == 0)
                by (nonlinear_arith)
                requires deni >= 1;
        }
        q as u64
    }
}

} // verus!
