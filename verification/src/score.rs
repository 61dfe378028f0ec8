//! Confidences and similarities: single-precision numbers, held as their
//! IEEE 754 bit patterns and compared by the values that these stand for.

use vstd::arithmetic::power2;
use vstd::prelude::*;

verus! {

/// A single-precision number, as its bit pattern.
#[derive(Clone, Copy, Debug, PartialEq, Eq, Structural)]
pub struct Score {
    pub bits: u32,
}

/// The pattern of the number one.
pub const ONE_BITS: u32 = 0x3f80_0000;

/// The pattern without its sign bit.
pub open spec fn magnitude(bits: u32) -> int {
    bits as int % 0x8000_0000
}

/// The sign bit.
pub open spec fn negative(bits: u32) -> bool {
    bits >= 0x8000_0000
}

/// The number that a pattern without sign stands for, in units of the smallest
/// positive number (two to the power of -149). The pattern of infinity stands
/// for a number above all finite ones.
pub open spec fn scaled(pattern: int) -> int {
    let exponent = pattern / 0x80_0000;
    let fraction = pattern % 0x80_0000;
    if exponent == 0 {
        fraction
    } else {
        (0x80_0000 + fraction) * power2::pow2((exponent - 1) as nat)
    }
}

proof fn lemma_scaled_in_step(exponent: int, fraction: int)
    requires
        exponent >= 1,
        0 <= fraction < 0x80_0000,
    ensures
        scaled(exponent * 0x80_0000 + fraction) == (0x80_0000 + fraction) * power2::pow2(
            (exponent - 1) as nat,
        ),
        0x80_0000 * power2::pow2((exponent - 1) as nat) <= scaled(exponent * 0x80_0000 + fraction),
        scaled(exponent * 0x80_0000 + fraction) < 0x80_0000 * power2::pow2(exponent as nat),
{
    let p = exponent * 0x80_0000 + fraction;
    assert(p / 0x80_0000 == exponent && p % 0x80_0000 == fraction);
    let unit = power2::pow2((exponent - 1) as nat);
    power2::lemma_pow2_pos((exponent - 1) as nat);
    power2::lemma_pow2_unfold(exponent as nat);
    assert(power2::pow2(exponent as nat) == 2 * unit);
    assert(0x80_0000 * unit <= (0x80_0000 + fraction) * unit) by (nonlinear_arith)
        requires
            fraction >= 0,
            unit > 0,
    ;
    assert((0x80_0000 + fraction) * unit < 0x80_0000 * (2 * unit)) by (nonlinear_arith)
        requires
            fraction < 0x80_0000,
            unit > 0,
    ;
}

/// A larger pattern stands for a larger number.
pub proof fn patterns_grow_with_numbers(a: int, b: int)
    requires
        0 <= a < b,
    ensures
        0 <= scaled(a) < scaled(b),
{
    let ea = a / 0x80_0000;
    let eb = b / 0x80_0000;
    let fa = a % 0x80_0000;
    let fb = b % 0x80_0000;
    assert(a == ea * 0x80_0000 + fa && b == eb * 0x80_0000 + fb);
    assert(ea <= eb);
    if eb >= 1 {
        lemma_scaled_in_step(eb, fb);
        power2::lemma_pow2_pos((eb - 1) as nat);
        if ea >= 1 {
            lemma_scaled_in_step(ea, fa);
            power2::lemma_pow2_pos((ea - 1) as nat);
            if ea == eb {
                let unit = power2::pow2((ea - 1) as nat);
                assert((0x80_0000 + fa) * unit < (0x80_0000 + fb) * unit) by (nonlinear_arith)
                    requires
                        fa < fb,
                        unit > 0,
                ;
                assert(0 <= (0x80_0000 + fa) * unit) by (nonlinear_arith)
                    requires
                        fa >= 0,
                        unit > 0,
                ;
            } else {
                if ea < eb - 1 {
                    power2::lemma_pow2_strictly_increases(ea as nat, (eb - 1) as nat);
                }
                assert(power2::pow2(ea as nat) <= power2::pow2((eb - 1) as nat));
                assert(0 <= 0x80_0000 * power2::pow2((ea - 1) as nat));
            }
        } else {
            assert(scaled(a) == fa);
            assert(power2::pow2((eb - 1) as nat) >= 1);
        }
    }
}

impl Score {
    /// Not a number.
    pub open spec fn nan(self) -> bool {
        magnitude(self.bits) > 0x7f80_0000
    }

    /// Neither infinite nor NaN.
    pub open spec fn finite(self) -> bool {
        magnitude(self.bits) < 0x7f80_0000
    }

    /// The value, in units of the smallest positive number.
    pub open spec fn value(self) -> int {
        if negative(self.bits) {
            -scaled(magnitude(self.bits))
        } else {
            scaled(magnitude(self.bits))
        }
    }

    /// Below the other number. Nothing is below or above NaN.
    pub open spec fn lt(self, other: Score) -> bool {
        !self.nan() && !other.nan() && self.value() < other.value()
    }

    /// Equal to the other number or above it.
    pub open spec fn ge(self, other: Score) -> bool {
        !self.nan() && !other.nan() && self.value() >= other.value()
    }

    /// The place in the total order of all patterns, NaNs with the sign bit
    /// first, then numbers by value with the negative zero before the positive
    /// one, then the other NaNs.
    pub open spec fn rank(self) -> int {
        if negative(self.bits) {
            -1 - magnitude(self.bits)
        } else {
            magnitude(self.bits)
        }
    }

    /// The larger of two numbers; the one that is a number where the other is
    /// NaN; the first of two equal ones.
    pub open spec fn larger(self, other: Score) -> Score {
        if self.nan() || self.lt(other) {
            other
        } else {
            self
        }
    }

    /// The nearest number from `low` to `high`; NaN as it is.
    pub open spec fn between(self, low: Score, high: Score) -> Score {
        if self.lt(low) {
            low
        } else if high.lt(self) {
            high
        } else {
            self
        }
    }

    /// The pattern without its sign bit.
    fn pattern(self) -> (p: u32)
        ensures
            p == magnitude(self.bits),
            p < 0x8000_0000,
    {
        if self.bits >= 0x8000_0000 {
            self.bits - 0x8000_0000
        } else {
            self.bits
        }
    }

    /// Whether this is NaN.
    pub fn is_nan(self) -> (is: bool)
        ensures
            is == self.nan(),
    {
        self.pattern() > 0x7f80_0000
    }

    /// Whether this is neither infinite nor NaN.
    pub fn is_finite(self) -> (is: bool)
        ensures
            is == self.finite(),
    {
        self.pattern() < 0x7f80_0000
    }

    /// Whether this number is below another.
    pub fn is_below(self, other: Score) -> (below: bool)
        ensures
            below == self.lt(other),
    {
        if self.is_nan() || other.is_nan() {
            return false;
        }
        let a: u32 = self.pattern();
        let b: u32 = other.pattern();
        let a_negative = self.bits >= 0x8000_0000;
        let b_negative = other.bits >= 0x8000_0000;
        proof {
            if a < b {
                patterns_grow_with_numbers(a as int, b as int);
            }
            if b < a {
                patterns_grow_with_numbers(b as int, a as int);
            }
            if a > 0 {
                patterns_grow_with_numbers(0, a as int);
            }
            if b > 0 {
                patterns_grow_with_numbers(0, b as int);
            }
            assert(scaled(0) == 0);
        }
        if a_negative && b_negative {
            b < a
        } else if a_negative {
            a > 0 || b > 0
        } else if b_negative {
            false
        } else {
            a < b
        }
    }

    /// Whether this number is at least another.
    pub fn is_at_least(self, other: Score) -> (at_least: bool)
        ensures
            at_least == self.ge(other),
    {
        if self.is_nan() || other.is_nan() {
            return false;
        }
        !self.is_below(other)
    }

    /// The place in the total order of all patterns.
    pub fn order_rank(self) -> (rank: i64)
        ensures
            rank == self.rank(),
            -0x8000_0000 <= rank < 0x8000_0000,
    {
        let p: i64 = self.pattern() as i64;
        if self.bits >= 0x8000_0000 {
            -1 - p
        } else {
            p
        }
    }

    /// The nearest number from `low` to `high`; NaN as it is.
    pub fn clamp_to(self, low: Score, high: Score) -> (clamped: Score)
        ensures
            clamped == self.between(low, high),
    {
        if self.is_below(low) {
            low
        } else if high.is_below(self) {
            high
        } else {
            self
        }
    }

    /// The larger of two numbers.
    pub fn max_with(self, other: Score) -> (max: Score)
        ensures
            max == self.larger(other),
    {
        if self.is_nan() || self.is_below(other) {
            other
        } else {
            self
        }
    }
}

/// The total order agrees with the values: what is below comes first, and only
/// the two zeros are told apart beyond their value.
pub proof fn rank_follows_value(a: Score, b: Score)
    requires
        !a.nan(),
        !b.nan(),
    ensures
        a.lt(b) ==> a.rank() < b.rank(),
        a.rank() < b.rank() ==> a.value() <= b.value(),
        a.value() == b.value() ==> a == b || a.value() == 0,
{
    let p = magnitude(a.bits);
    let q = magnitude(b.bits);
    if p < q {
        patterns_grow_with_numbers(p, q);
    }
    if q < p {
        patterns_grow_with_numbers(q, p);
    }
    if p > 0 {
        patterns_grow_with_numbers(0, p);
    }
    if q > 0 {
        patterns_grow_with_numbers(0, q);
    }
    assert(scaled(0) == 0);
    if p == q && negative(a.bits) == negative(b.bits) {
        assert(a.bits == b.bits);
    }
}

/// Numbers compare as their patterns do: those without a sign as the patterns, those with
/// one the other way round, and one with a sign is below one without, but that the two
/// zeros are equal. What is not a number compares with nothing.
pub proof fn numbers_compare_by_their_bits(a: Score, b: Score)
    ensures
        a.bits <= 0x7f80_0000 && b.bits <= 0x7f80_0000 ==> (a.lt(b) <==> a.bits < b.bits) && (a.ge(
            b,
        ) <==> a.bits >= b.bits),
        0x8000_0000 <= a.bits <= 0xff80_0000 && 0x8000_0000 <= b.bits <= 0xff80_0000 ==> (a.lt(b)
            <==> a.bits > b.bits) && (a.ge(b) <==> a.bits <= b.bits),
        0x8000_0000 <= a.bits <= 0xff80_0000 && b.bits <= 0x7f80_0000 ==> (a.lt(b) <==> !(a.bits
            == 0x8000_0000 && b.bits == 0)) && !b.lt(a) && b.ge(a) && (a.ge(b) <==> a.bits
            == 0x8000_0000 && b.bits == 0),
        a.nan() <==> 0x7f80_0000 < a.bits < 0x8000_0000 || a.bits > 0xff80_0000,
        a.nan() || b.nan() ==> !a.lt(b) && !b.lt(a) && !a.ge(b) && !b.ge(a),
        a.finite() <==> a.bits < 0x7f80_0000 || 0x8000_0000 <= a.bits < 0xff80_0000,
{
    let p = magnitude(a.bits);
    let q = magnitude(b.bits);
    if p < q {
        patterns_grow_with_numbers(p, q);
    }
    if q < p {
        patterns_grow_with_numbers(q, p);
    }
    if p > 0 {
        patterns_grow_with_numbers(0, p);
    }
    if q > 0 {
        patterns_grow_with_numbers(0, q);
    }
    assert(scaled(0) == 0);
}

/// A number that is kept between two others lies between them, and stays as it is where it
/// did before; it is never moved past one of them.
pub proof fn kept_numbers_lie_between(a: Score, low: Score, high: Score)
    requires
        !a.nan(),
        !low.nan(),
        !high.nan(),
        low.value() <= high.value(),
    ensures
        low.value() <= a.between(low, high).value() <= high.value(),
        low.value() <= a.value() <= high.value() ==> a.between(low, high) == a,
        a.value() < low.value() ==> a.between(low, high) == low,
        a.value() > high.value() ==> a.between(low, high) == high,
{
}

/// The larger of two numbers is one of them, and not below either; what is not a number
/// is never the larger one beside a number.
pub proof fn the_larger_is_above_both(a: Score, b: Score)
    ensures
        a.larger(b) == a || a.larger(b) == b,
        !a.nan() ==> !a.larger(b).nan() && a.larger(b).value() >= a.value(),
        !b.nan() ==> !a.larger(b).nan() && a.larger(b).value() >= b.value(),
        !a.nan() && !b.nan() && a.value() == b.value() ==> a.larger(b) == a,
{
}

/// In the total order a pattern without a sign stands where its bits do, and every one with
/// a sign before all of those, the larger the bits the sooner.
pub proof fn every_pattern_has_its_rank(a: Score, b: Score)
    ensures
        a.bits < 0x8000_0000 ==> a.rank() == a.bits,
        a.bits >= 0x8000_0000 ==> a.rank() < 0,
        a.bits >= 0x8000_0000 && b.bits >= 0x8000_0000 ==> (a.rank() < b.rank() <==> a.bits
            > b.bits),
        a.rank() == b.rank() ==> a == b,
        -0x8000_0000 <= a.rank() < 0x8000_0000,
{
}

}
