//! Exact non-negative ratios, used for means, speedups and unit factors.

use vstd::prelude::*;

verus! {

/// The non-negative rational `num / den`. A zero `den` stands for a
/// quotient that is undefined (a mean of no values, or a division by a zero
/// mean); such a ratio is carried through and shown as the backend shows it.
#[derive(Clone, Copy, Debug, PartialEq, Eq, Structural)]
pub struct Ratio {
    pub num: u128,
    pub den: u128,
}

impl Ratio {
    /// Whether the ratio is a defined number.
    pub open spec fn defined(self) -> bool {
        self.den > 0
    }

    /// The two ratios stand for the same number, for defined ratios.
    pub open spec fn same_value(self, o: Ratio) -> bool {
        self.num * o.den == o.num * self.den
    }

    /// `self <= o` as numbers, for defined ratios.
    pub open spec fn le(self, o: Ratio) -> bool {
        self.num * o.den <= o.num * self.den
    }

    /// `self * o`, as a pair of integers.
    pub open spec fn times(self, o: Ratio) -> (int, int) {
        (self.num * o.num, self.den * o.den)
    }

    /// `self / o`, as a pair of integers.
    pub open spec fn over(self, o: Ratio) -> (int, int) {
        (self.num * o.den, self.den * o.num)
    }

    /// A ratio whose parts are the given pair.
    pub open spec fn is_pair(self, p: (int, int)) -> bool {
        self.num == p.0 && self.den == p.1
    }

    /// `self / o` where both parts fit in 64 bits, so that the quotient is
    /// exact.
    pub fn div_small(self, o: Ratio) -> (r: Ratio)
        requires
            self.num <= u64::MAX,
            self.den <= u64::MAX,
            o.num <= u64::MAX,
            o.den <= u64::MAX,
        ensures
            r.is_pair(self.over(o)),
    {
        assert(self.num * o.den <= u64::MAX * u64::MAX) by (nonlinear_arith)
            requires self.num <= u64::MAX, o.den <= u64::MAX;
        assert(self.den * o.num <= u64::MAX * u64::MAX) by (nonlinear_arith)
            requires self.den <= u64::MAX, o.num <= u64::MAX;
        Ratio { num: self.num * o.den, den: self.den * o.num }
    }

    /// `self * o`, or `None` where a part of the product does not fit.
    pub fn checked_times(self, o: Ratio) -> (r: Option<Ratio>)
        ensures
            r is Some <==> self.times(o).0 <= u128::MAX && self.times(o).1 <= u128::MAX,
            r is Some ==> r->0.is_pair(self.times(o)),
    {
        match (self.num.checked_mul(o.num), self.den.checked_mul(o.den)) {
            (Some(n), Some(d)) => Some(Ratio { num: n, den: d }),
            _ => None,
        }
    }

    /// Whether `self <= o` as numbers, where both parts fit in 64 bits.
    pub fn le_small(self, o: Ratio) -> (r: bool)
        requires
            self.num <= u64::MAX,
            self.den <= u64::MAX,
            o.num <= u64::MAX,
            o.den <= u64::MAX,
        ensures
            r == self.le(o),
    {
        assert(self.num * o.den <= u64::MAX * u64::MAX) by (nonlinear_arith)
            requires self.num <= u64::MAX, o.den <= u64::MAX;
        assert(o.num * self.den <= u64::MAX * u64::MAX) by (nonlinear_arith)
            requires self.den <= u64::MAX, o.num <= u64::MAX;
        self.num * o.den <= o.num * self.den
    }
}

/// Scaling by a factor and then by its reciprocal gives back the value:
/// `(v * f) * (1 / f) == v` for a defined value and a non-zero factor.
pub proof fn lemma_scale_round_trip(v: Ratio, f: Ratio, scaled: Ratio, back: Ratio)
    requires
        v.defined(),
        f.num > 0,
        f.den > 0,
        scaled.is_pair(v.times(f)),
        back.is_pair(scaled.times(Ratio { num: f.den, den: f.num })),
    ensures
        back.same_value(v),
        back.defined(),
{
    assert(back.num * v.den == v.num * back.den) by (nonlinear_arith)
        requires
            back.num == v.num * f.num * f.den,
            back.den == v.den * f.den * f.num;
    assert(back.den > 0) by (nonlinear_arith)
        requires
            back.den == v.den * f.den * f.num,
            v.den > 0,
            f.den > 0,
            f.num > 0;
}

} // verus!
