//! Exact rational amounts.
//!
//! Every monetary amount, traded quantity and profit that the library reports
//! is an exact rational `num / den` with a positive denominator.  Comparisons
//! go through 128-bit cross multiplication, which cannot overflow for 64-bit
//! fields, so ordering and equality of amounts are total operations.

use vstd::prelude::*;

verus! {

/// An exact rational amount `num / den`.
#[derive(Clone, Copy, Debug)]
pub struct Rat {
    pub num: i64,
    pub den: i64,
}

/// Two rationals denote the same amount: cross products agree.
pub open spec fn rat_eq_spec(a: Rat, b: Rat) -> bool
    recommends
        a.wf(),
        b.wf(),
{
    a.num * b.den == b.num * a.den
}

/// `a` denotes an amount no greater than `b`: cross products are ordered.
pub open spec fn rat_le_spec(a: Rat, b: Rat) -> bool
    recommends
        a.wf(),
        b.wf(),
{
    a.num * b.den <= b.num * a.den
}

/// Products of two 64-bit factors stay well inside the 128-bit range.
pub proof fn lemma_i64_mul_fits(a: int, b: int)
    by (nonlinear_arith)
    requires
        -0x8000_0000_0000_0000 <= a <= 0x7fff_ffff_ffff_ffff,
        -0x8000_0000_0000_0000 <= b <= 0x7fff_ffff_ffff_ffff,
    ensures
        -0x4000_0000_0000_0000_0000_0000_0000_0000 <= a * b,
        a * b <= 0x4000_0000_0000_0000_0000_0000_0000_0000,
{
}

impl Rat {
    /// The denominator is positive.
    pub open spec fn wf(self) -> bool {
        self.den > 0
    }

    /// The rational representing the integer `v`.
    pub fn from_int(v: i64) -> (r: Rat)
        ensures
            r.wf(),
            r.num == v,
            r.den == 1,
    {
        Rat { num: v, den: 1 }
    }

    /// The rational `num / den`.
    pub fn new(num: i64, den: i64) -> (r: Rat)
        requires
            den > 0,
        ensures
            r.wf(),
            r.num == num,
            r.den == den,
    {
        Rat { num, den }
    }

    /// Whether `self` and `other` denote the same amount.
    pub fn eq_rat(&self, other: &Rat) -> (r: bool)
        requires
            self.wf(),
            other.wf(),
        ensures
            r == rat_eq_spec(*self, *other),
    {
        proof {
            lemma_i64_mul_fits(self.num as int, other.den as int);
            lemma_i64_mul_fits(other.num as int, self.den as int);
        }
        (self.num as i128) * (other.den as i128) == (other.num as i128) * (self.den as i128)
    }

    /// Whether `self` denotes an amount no greater than `other`.
    pub fn le(&self, other: &Rat) -> (r: bool)
        requires
            self.wf(),
            other.wf(),
        ensures
            r == rat_le_spec(*self, *other),
    {
        proof {
            lemma_i64_mul_fits(self.num as int, other.den as int);
            lemma_i64_mul_fits(other.num as int, self.den as int);
        }
        (self.num as i128) * (other.den as i128) <= (other.num as i128) * (self.den as i128)
    }

    /// Whether `self` denotes an amount strictly less than `other`.
    pub fn lt(&self, other: &Rat) -> (r: bool)
        requires
            self.wf(),
            other.wf(),
        ensures
            r == (rat_le_spec(*self, *other) && !rat_eq_spec(*self, *other)),
    {
        proof {
            lemma_i64_mul_fits(self.num as int, other.den as int);
            lemma_i64_mul_fits(other.num as int, self.den as int);
        }
        (self.num as i128) * (other.den as i128) < (other.num as i128) * (self.den as i128)
    }

    /// Whether `self` denotes exactly the integer `v`.
    pub fn eq_int(&self, v: i64) -> (r: bool)
        requires
            self.wf(),
        ensures
            r == (self.num == v * self.den),
    {
        proof {
            lemma_i64_mul_fits(v as int, self.den as int);
        }
        (self.num as i128) == (v as i128) * (self.den as i128)
    }
}

} // verus!
