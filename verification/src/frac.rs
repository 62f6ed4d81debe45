use vstd::prelude::*;

verus! {

/// Magnitude cap on numerators and denominators; keeps every cross
/// multiplication well inside `i64`.
pub const FRAC_LIMIT: i64 = 0x1000_0000;

/// An exact fraction `num / den` with a positive denominator.
///
/// Times of impact within a tick are fractions of the tick; comparing them by
/// cross multiplication keeps the collision engine free of rounding.
#[derive(Clone, Copy, PartialEq, Eq, Structural, Debug)]
pub struct Frac {
    pub num: i64,
    pub den: i64,
}

/// A time extended with the two infinities, as the slab test uses them: an
/// axis on which the mover is still yields an unbounded overlap interval.
/// The fields are mathematical integers, so this type lives in specifications
/// only.
pub enum XTime {
    MInf,
    Fin { n: int, d: int },
    PInf,
}

/// Strict order on extended times; finite values compare as rationals
/// (denominators are positive wherever this is applied).
pub open spec fn xt_lt(a: XTime, b: XTime) -> bool {
    match (a, b) {
        (XTime::MInf, XTime::MInf) => false,
        (XTime::MInf, _) => true,
        (XTime::Fin { .. }, XTime::MInf) => false,
        (XTime::Fin { n: an, d: ad }, XTime::Fin { n: bn, d: bd }) => an * bd < bn * ad,
        (XTime::Fin { .. }, XTime::PInf) => true,
        (XTime::PInf, _) => false,
    }
}

/// Non-strict order on extended times.
pub open spec fn xt_le(a: XTime, b: XTime) -> bool {
    !xt_lt(b, a)
}

/// A finite extended time with a positive denominator.
pub open spec fn xt_pos(a: XTime) -> bool {
    match a {
        XTime::Fin { n, d } => d > 0,
        _ => true,
    }
}

/// Transitivity of the order on extended times with positive denominators.
pub proof fn lemma_xt_le_trans(a: XTime, b: XTime, c: XTime)
    requires
        xt_pos(a),
        xt_pos(b),
        xt_pos(c),
        xt_le(a, b),
        xt_le(b, c),
    ensures
        xt_le(a, c),
{
    match (a, b, c) {
        (XTime::Fin { n: an, d: ad }, XTime::Fin { n: bn, d: bd }, XTime::Fin { n: cn, d: cd }) => {
            assert(!(cn * ad < an * cd)) by (nonlinear_arith)
                requires
                    ad > 0,
                    bd > 0,
                    cd > 0,
                    !(bn * ad < an * bd),
                    !(cn * bd < bn * cd),
            ;
        },
        _ => {},
    }
}

pub proof fn lemma_mul_bound(a: int, b: int, m: int)
    requires
        -m <= a <= m,
        -m <= b <= m,
        0 <= m,
    ensures
        -m * m <= a * b <= m * m,
{
    assert(-m * m <= a * b <= m * m) by (nonlinear_arith)
        requires
            -m <= a <= m,
            -m <= b <= m,
            0 <= m,
    ;
}

/// Division rounded toward zero (for a positive divisor), as the hardware
/// divides; the spec-level `/` on `int` rounds toward minus infinity instead.
pub open spec fn div_trunc(a: int, b: int) -> int {
    if a >= 0 {
        a / b
    } else {
        -((-a) / b)
    }
}

/// Truncating division of an `i64` by a positive divisor.
pub fn div_trunc_i64(a: i64, b: i64) -> (r: i64)
    requires
        b > 0,
        -0x4000_0000_0000_0000 <= a <= 0x4000_0000_0000_0000,
    ensures
        r == div_trunc(a as int, b as int),
{
    if a >= 0 {
        ((a as u64) / (b as u64)) as i64
    } else {
        -((((-a) as u64) / (b as u64)) as i64)
    }
}

pub proof fn lemma_mul_bound2(a: int, b: int, ma: int, mb: int)
    requires
        -ma <= a <= ma,
        -mb <= b <= mb,
        0 <= ma,
        0 <= mb,
    ensures
        -ma * mb <= a * b <= ma * mb,
{
    assert(-ma * mb <= a * b <= ma * mb) by (nonlinear_arith)
        requires
            -ma <= a <= ma,
            -mb <= b <= mb,
            0 <= ma,
            0 <= mb,
    ;
}

impl Frac {
    pub open spec fn wf(self) -> bool {
        0 < self.den <= FRAC_LIMIT && -FRAC_LIMIT <= self.num <= FRAC_LIMIT
    }

    pub open spec fn view(self) -> XTime {
        XTime::Fin { n: self.num as int, d: self.den as int }
    }

    /// `self < other` as rationals.
    pub open spec fn spec_lt(self, other: Frac) -> bool {
        self.num * other.den < other.num * self.den
    }

    pub fn lt(&self, other: &Frac) -> (r: bool)
        requires
            self.wf(),
            other.wf(),
        ensures
            r == self.spec_lt(*other),
            r == xt_lt(self@, other@),
    {
        proof {
            lemma_mul_bound(self.num as int, other.den as int, FRAC_LIMIT as int);
            lemma_mul_bound(other.num as int, self.den as int, FRAC_LIMIT as int);
        }
        self.num * other.den < other.num * self.den
    }

    /// `self < 0` as rationals.
    pub fn lt_zero(&self) -> (r: bool)
        requires
            self.wf(),
        ensures
            r == xt_lt(self@, XTime::Fin { n: 0, d: 1 }),
    {
        self.num < 0
    }

    /// `self > 1` as rationals.
    pub fn gt_one(&self) -> (r: bool)
        requires
            self.wf(),
        ensures
            r == xt_lt(XTime::Fin { n: 1, d: 1 }, self@),
    {
        self.num > self.den
    }
}

} // verus!
