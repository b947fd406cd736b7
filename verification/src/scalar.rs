//! Numbers that the layers compute with.
//!
//! The layers are written once, for any type with these operations. Each operation is a
//! function of its operands; nothing else is taken for granted about it, so a contract says
//! which operations are applied to which operands in which order, down to rounding.

use vstd::prelude::*;

use crate::float_bits::{float_le, is_nan};

verus! {

/// A number with the operations of single precision.
pub trait Scalar: Sized {
    /// The number with a bit pattern.
    open spec fn s_of_bits(bits: u32) -> Self {
        arbitrary()
    }

    /// The bit pattern of the number.
    open spec fn s_bits(self) -> u32 {
        arbitrary()
    }

    /// The number nearest to an integer.
    open spec fn s_of_usize(n: usize) -> Self {
        arbitrary()
    }

    /// `self + other`.
    open spec fn s_plus(self, other: Self) -> Self {
        arbitrary()
    }

    /// `self - other`.
    open spec fn s_minus(self, other: Self) -> Self {
        arbitrary()
    }

    /// `self * other`.
    open spec fn s_times(self, other: Self) -> Self {
        arbitrary()
    }

    /// `self / other`.
    open spec fn s_over(self, other: Self) -> Self {
        arbitrary()
    }

    /// `-self`.
    open spec fn s_neg(self) -> Self {
        arbitrary()
    }

    /// The larger of both.
    open spec fn s_max(self, other: Self) -> Self {
        arbitrary()
    }

    /// The exponential.
    open spec fn s_exp(self) -> Self {
        arbitrary()
    }

    /// The natural logarithm.
    open spec fn s_ln(self) -> Self {
        arbitrary()
    }

    /// The square root.
    open spec fn s_sqrt(self) -> Self {
        arbitrary()
    }

    /// The number with a bit pattern.
    fn of_bits(bits: u32) -> (r: Self)
        ensures
            r == Self::s_of_bits(bits),
    ;

    /// The bit pattern of the number.
    fn bits(&self) -> (r: u32)
        ensures
            r == self.s_bits(),
    ;

    /// The number nearest to an integer.
    fn of_usize(n: usize) -> (r: Self)
        ensures
            r == Self::s_of_usize(n),
    ;

    /// The same number.
    fn dup(&self) -> (r: Self)
        ensures
            r == *self,
    ;

    /// `self + other`.
    fn plus(&self, other: &Self) -> (r: Self)
        ensures
            r == self.s_plus(*other),
    ;

    /// `self - other`.
    fn minus(&self, other: &Self) -> (r: Self)
        ensures
            r == self.s_minus(*other),
    ;

    /// `self * other`.
    fn times(&self, other: &Self) -> (r: Self)
        ensures
            r == self.s_times(*other),
    ;

    /// `self / other`.
    fn over(&self, other: &Self) -> (r: Self)
        ensures
            r == self.s_over(*other),
    ;

    /// `-self`.
    fn negated(&self) -> (r: Self)
        ensures
            r == self.s_neg(),
    ;

    /// The larger of both.
    fn larger(&self, other: &Self) -> (r: Self)
        ensures
            r == self.s_max(*other),
    ;

    /// The exponential.
    fn exponential(&self) -> (r: Self)
        ensures
            r == self.s_exp(),
    ;

    /// The natural logarithm.
    fn logarithm(&self) -> (r: Self)
        ensures
            r == self.s_ln(),
    ;

    /// The square root.
    fn root(&self) -> (r: Self)
        ensures
            r == self.s_sqrt(),
    ;
}

/// A number as an unevaluated expression: running a layer on terms shows the formula of each
/// of its results.
#[derive(Debug, PartialEq)]
pub enum Term {
    Bits(u32),
    Count(usize),
    Plus(Box<Term>, Box<Term>),
    Minus(Box<Term>, Box<Term>),
    Times(Box<Term>, Box<Term>),
    Over(Box<Term>, Box<Term>),
    Neg(Box<Term>),
    Max(Box<Term>, Box<Term>),
    Exp(Box<Term>),
    Ln(Box<Term>),
    Sqrt(Box<Term>),
}

impl Term {
    /// The same term.
    fn copy(&self) -> (r: Term)
        ensures
            r == *self,
        decreases self,
    {
        match self {
            Term::Bits(b) => Term::Bits(*b),
            Term::Count(n) => Term::Count(*n),
            Term::Plus(a, b) => Term::Plus(Box::new(a.copy()), Box::new(b.copy())),
            Term::Minus(a, b) => Term::Minus(Box::new(a.copy()), Box::new(b.copy())),
            Term::Times(a, b) => Term::Times(Box::new(a.copy()), Box::new(b.copy())),
            Term::Over(a, b) => Term::Over(Box::new(a.copy()), Box::new(b.copy())),
            Term::Neg(a) => Term::Neg(Box::new(a.copy())),
            Term::Max(a, b) => Term::Max(Box::new(a.copy()), Box::new(b.copy())),
            Term::Exp(a) => Term::Exp(Box::new(a.copy())),
            Term::Ln(a) => Term::Ln(Box::new(a.copy())),
            Term::Sqrt(a) => Term::Sqrt(Box::new(a.copy())),
        }
    }
}

impl Scalar for Term {
    open spec fn s_of_bits(bits: u32) -> Term {
        Term::Bits(bits)
    }

    /// A literal's bit pattern; a compound term has none and answers zero.
    open spec fn s_bits(self) -> u32 {
        match self {
            Term::Bits(b) => b,
            _ => 0,
        }
    }

    open spec fn s_of_usize(n: usize) -> Term {
        Term::Count(n)
    }

    open spec fn s_plus(self, other: Term) -> Term {
        Term::Plus(Box::new(self), Box::new(other))
    }

    open spec fn s_minus(self, other: Term) -> Term {
        Term::Minus(Box::new(self), Box::new(other))
    }

    open spec fn s_times(self, other: Term) -> Term {
        Term::Times(Box::new(self), Box::new(other))
    }

    open spec fn s_over(self, other: Term) -> Term {
        Term::Over(Box::new(self), Box::new(other))
    }

    open spec fn s_neg(self) -> Term {
        Term::Neg(Box::new(self))
    }

    open spec fn s_max(self, other: Term) -> Term {
        Term::Max(Box::new(self), Box::new(other))
    }

    open spec fn s_exp(self) -> Term {
        Term::Exp(Box::new(self))
    }

    open spec fn s_ln(self) -> Term {
        Term::Ln(Box::new(self))
    }

    open spec fn s_sqrt(self) -> Term {
        Term::Sqrt(Box::new(self))
    }

    fn of_bits(bits: u32) -> (r: Term) {
        Term::Bits(bits)
    }

    fn bits(&self) -> (r: u32) {
        match self {
            Term::Bits(b) => *b,
            _ => 0,
        }
    }

    fn of_usize(n: usize) -> (r: Term) {
        Term::Count(n)
    }

    fn dup(&self) -> (r: Term) {
        self.copy()
    }

    fn plus(&self, other: &Term) -> (r: Term) {
        Term::Plus(Box::new(self.copy()), Box::new(other.copy()))
    }

    fn minus(&self, other: &Term) -> (r: Term) {
        Term::Minus(Box::new(self.copy()), Box::new(other.copy()))
    }

    fn times(&self, other: &Term) -> (r: Term) {
        Term::Times(Box::new(self.copy()), Box::new(other.copy()))
    }

    fn over(&self, other: &Term) -> (r: Term) {
        Term::Over(Box::new(self.copy()), Box::new(other.copy()))
    }

    fn negated(&self) -> (r: Term) {
        Term::Neg(Box::new(self.copy()))
    }

    fn larger(&self, other: &Term) -> (r: Term) {
        Term::Max(Box::new(self.copy()), Box::new(other.copy()))
    }

    fn exponential(&self) -> (r: Term) {
        Term::Exp(Box::new(self.copy()))
    }

    fn logarithm(&self) -> (r: Term) {
        Term::Ln(Box::new(self.copy()))
    }

    fn root(&self) -> (r: Term) {
        Term::Sqrt(Box::new(self.copy()))
    }
}

/// Zero.
pub open spec fn zero<S: Scalar>() -> S {
    S::s_of_bits(0)
}

/// One.
pub open spec fn one<S: Scalar>() -> S {
    S::s_of_bits(0x3F800000)
}

/// Negative infinity, the least number.
pub open spec fn least<S: Scalar>() -> S {
    S::s_of_bits(0xFF800000)
}

/// Zero.
pub fn zero_of<S: Scalar>() -> (r: S)
    ensures
        r == zero::<S>(),
{
    S::of_bits(0)
}

/// One.
pub fn one_of<S: Scalar>() -> (r: S)
    ensures
        r == one::<S>(),
{
    S::of_bits(0x3F800000)
}

/// `n` zeros.
pub fn zero_vec<S: Scalar>(n: usize) -> (r: Vec<S>)
    ensures
        r@ == Seq::new(n as nat, |i: int| zero::<S>()),
{
    let mut v: Vec<S> = Vec::new();
    for i in 0..n
        invariant
            v@ == Seq::new(i as nat, |j: int| zero::<S>()),
    {
        v.push(zero_of());
        assert(v@ =~= Seq::new((i + 1) as nat, |j: int| zero::<S>()));
    }
    v
}

/// The fixed numbers by their bit patterns: zero has none set, one the exponent 127 and no
/// fraction, and no number that is not a NaN lies below the least.
pub proof fn law_fixed_numbers<S: Scalar>(bits: u32)
    ensures
        zero::<S>() == S::s_of_bits(0),
        one::<S>() == S::s_of_bits((127 * 0x80_0000) as u32),
        exists|low: u32|
            least::<S>() == #[trigger] S::s_of_bits(low) && float_le(low, low) && (!is_nan(bits)
                ==> float_le(low, bits)),
{
    let low: u32 = 0xFF80_0000;
    assert(least::<S>() == S::s_of_bits(low));
    assert(float_le(low, low));
}

} // verus!
