//! Split ratios, kept as integers.
//!
//! A ratio is a number of `1 / ONE` units. Sums, products and quotients of
//! ratios are rounded to 24 significant binary digits, to nearest with ties to
//! even, so that every result is the one that IEEE 754 single precision gives
//! and a layout comes out cell for cell the same wherever it is computed.

use vstd::arithmetic::div_mod::{lemma_div_denominator, lemma_fundamental_div_mod};
use vstd::prelude::*;

verus! {

/// Units in the ratio one: two to the power 40.
pub const ONE: u64 = 1099511627776;

/// One half, in units.
pub const HALF_UNITS: u64 = 549755813888;

/// The single-precision value nearest to 0.1, in units.
pub const MIN_RATIO_UNITS: u64 = 109951164416;

/// The single-precision value nearest to 0.9, in units.
pub const MAX_RATIO_UNITS: u64 = 989560438784;

/// The single-precision value nearest to 0.6, in units.
pub const MASTER_RATIO_UNITS: u64 = 659707002880;

/// Two to the power 24: one more than the largest significand.
pub const SIGNIFICAND: u128 = 16777216;

/// The share of a split that goes to its first child.
#[derive(Clone, Copy, Debug, PartialEq, Eq, Structural)]
pub struct Ratio {
    /// The ratio times [`ONE`].
    pub units: u64,
}

/// The weight of the last significant digit of `x` when 24 binary digits are
/// kept: the least power of two that leaves `x / grain(x)` below two to the 24.
pub open spec fn grain(x: nat) -> nat
    decreases x,
{
    if x < SIGNIFICAND {
        1
    } else {
        2 * grain(x / 2)
    }
}

/// `num / den` rounded to 24 significant binary digits, ties to even.
pub open spec fn nearest24(num: nat, den: nat) -> nat {
    let whole = num / den;
    let g = grain(whole);
    let q = whole / g;
    let twice_rest = 2 * ((whole % g) * den + num % den);
    if twice_rest < g * den || (twice_rest == g * den && q % 2 == 0) {
        q * g
    } else {
        (q + 1) * g
    }
}

/// A ratio moved into the range that every adjusted split keeps to.
pub open spec fn clamped(units: int) -> int {
    if units < MIN_RATIO_UNITS {
        MIN_RATIO_UNITS as int
    } else if units > MAX_RATIO_UNITS {
        MAX_RATIO_UNITS as int
    } else {
        units
    }
}

/// The ratio `from + by`, rounded and clamped.
pub open spec fn nudged(from: Ratio, by: int) -> Ratio {
    let sum = from.units + by;
    Ratio {
        units: if sum < 0 {
            MIN_RATIO_UNITS
        } else {
            clamped(nearest24(sum as nat, 1) as int) as u64
        },
    }
}

/// `total * ratio`, rounded to the nearest cell with halves going up, and held
/// within a `u16`.
pub open spec fn share_of(total: u16, ratio: Ratio) -> int {
    let cells = (nearest24((total * ratio.units) as nat, 1) + HALF_UNITS) / (ONE as int);
    if cells > u16::MAX {
        u16::MAX as int
    } else {
        cells
    }
}

/// `amount` percent, in units.
pub open spec fn percent(amount: u16) -> nat {
    nearest24((amount * ONE) as nat, 100)
}

/// The share of one item among `remaining` equal ones.
pub open spec fn equal_share(remaining: nat) -> Ratio {
    Ratio { units: nearest24(ONE as nat, remaining) as u64 }
}

/// What each of two side columns gets beside a master column: half of the rest.
pub open spec fn side_share(master: Ratio) -> Ratio {
    Ratio { units: (nearest24((ONE - master.units) as nat, 1) / 2) as u64 }
}

/// The master's share of what is left of the area once the left column is cut off.
pub open spec fn inner_share(master: Ratio) -> Ratio {
    let sum = nearest24((master.units + side_share(master).units) as nat, 1);
    Ratio { units: nearest24((master.units * ONE) as nat, sum) as u64 }
}

pub(crate) proof fn lemma_grain(x: nat)
    ensures
        grain(x) >= 1,
        grain(x) == 1 || grain(x) * 8388608 <= x,
        x / grain(x) < SIGNIFICAND,
    decreases x,
{
    if x >= SIGNIFICAND {
        lemma_grain(x / 2);
        let g = grain(x / 2);
        assert(x / (2 * g) == (x / 2) / g) by {
            lemma_div_denominator(x as int, 2, g as int);
        }
        assert(2 * g * 8388608 <= x) by {
            if g == 1 {
            } else {
                assert(g * 8388608 <= x / 2);
            }
        }
    }
}

/// Rounding keeps a value within a factor of two.
proof fn lemma_nearest24_bounds(num: nat, den: nat)
    requires
        den > 0,
    ensures
        nearest24(num, den) <= 2 * (num / den) + 1,
        2 * nearest24(num, den) >= num / den,
{
    let whole = num / den;
    let g = grain(whole);
    lemma_grain(whole);
    lemma_fundamental_div_mod(whole as int, g as int);
    let q = whole / g;
    assert(q * g <= whole < q * g + g) by (nonlinear_arith)
        requires
            whole == g * q + whole % g,
            0 <= whole % g < g,
    ;
    assert((q + 1) * g == q * g + g) by (nonlinear_arith);
    if g == 1 {
        assert(q * g == whole);
    } else {
        assert(g <= whole / 8388608);
    }
}

/// Rounds `num / den` to 24 significant binary digits, ties to even.
pub fn round24(num: u128, den: u128) -> (r: u128)
    requires
        0 < den < 0x1_0000_0000_0000_0000,
        num < 0x1_0000_0000_0000_0000_0000_0000,
    ensures
        r == nearest24(num as nat, den as nat),
        r <= 2 * (num / den) + 1,
{
    let whole: u128 = num / den;
    let mut g: u128 = 1;
    let mut q: u128 = whole;
    proof {
        assert(whole <= num) by (nonlinear_arith)
            requires
                whole == num / den,
                den > 0,
        ;
    }
    while q >= SIGNIFICAND
        invariant
            whole < 0x1_0000_0000_0000_0000_0000_0000,
            g >= 1,
            q == whole / g,
            grain(whole as nat) == g * grain(q as nat),
            g == 1 || g * 8388608 <= whole,
        decreases q,
    {
        proof {
            lemma_fundamental_div_mod(whole as int, g as int);
            assert(g * SIGNIFICAND <= whole) by (nonlinear_arith)
                requires
                    whole == g * q + whole % g,
                    whole % g >= 0,
                    q >= SIGNIFICAND,
                    g >= 1,
            ;
            lemma_div_denominator(whole as int, g as int, 2);
            assert(g * (2 * grain((q / 2) as nat)) == (g * 2) * grain((q / 2) as nat))
                by (nonlinear_arith);
        }
        q = q / 2;
        g = g * 2;
    }
    proof {
        let kept = grain(q as nat);
        assert(g * kept == g) by (nonlinear_arith)
            requires
                kept == 1,
        ;
        lemma_fundamental_div_mod(num as int, den as int);
        lemma_fundamental_div_mod(whole as int, g as int);
        lemma_nearest24_bounds(num as nat, den as nat);
        assert(whole * den <= num) by (nonlinear_arith)
            requires
                num == den * whole + num % den,
                num % den >= 0,
        ;
        assert(g == 1 || g * den <= num) by (nonlinear_arith)
            requires
                whole * den <= num,
                g == 1 || g * 8388608 <= whole,
                den > 0,
        ;
        assert((whole % g) * den <= g * den) by (nonlinear_arith)
            requires
                0 <= whole % g < g,
                den > 0,
        ;
        assert(q * g <= whole) by (nonlinear_arith)
            requires
                whole == g * q + whole % g,
                whole % g >= 0,
        ;
        assert((q + 1) * g == q * g + g) by (nonlinear_arith);
        assert(g == 1 ==> g * den == den);
    }
    let rest: u128 = (whole % g) * den + num % den;
    let unit: u128 = g * den;
    if 2 * rest < unit || (2 * rest == unit && q % 2 == 0) {
        q * g
    } else {
        (q + 1) * g
    }
}

impl Ratio {
    /// The even split.
    pub fn half() -> (r: Ratio)
        ensures
            r == (Ratio { units: HALF_UNITS }),
    {
        Ratio { units: HALF_UNITS }
    }

    /// The ratio moved by `delta` units, and clamped to the permitted range.
    pub fn nudge(self, delta: i64) -> (r: Ratio)
        ensures
            r == nudged(self, delta as int),
            MIN_RATIO_UNITS <= r.units <= MAX_RATIO_UNITS,
    {
        let sum: i128 = self.units as i128 + delta as i128;
        if sum < 0 {
            return Ratio { units: MIN_RATIO_UNITS };
        }
        let rounded: u128 = round24(sum as u128, 1);
        proof {
            assert((sum as u128) as nat == sum as nat);
        }
        if rounded < MIN_RATIO_UNITS as u128 {
            Ratio { units: MIN_RATIO_UNITS }
        } else if rounded > MAX_RATIO_UNITS as u128 {
            Ratio { units: MAX_RATIO_UNITS }
        } else {
            Ratio { units: rounded as u64 }
        }
    }

    /// The cells of `total` that the ratio stands for, before minimum sizes.
    pub fn share(self, total: u16) -> (r: u16)
        ensures
            r == share_of(total, self),
    {
        assert(total as u128 * self.units as u128 <= 0xffff * 0xffff_ffff_ffff_ffff)
            by (nonlinear_arith)
            requires
                total <= 0xffff,
                self.units <= 0xffff_ffff_ffff_ffff,
        ;
        let product: u128 = total as u128 * self.units as u128;
        let rounded: u128 = round24(product, 1);
        let cells: u128 = (rounded + HALF_UNITS as u128) / (ONE as u128);
        if cells > 65535 {
            65535
        } else {
            cells as u16
        }
    }

    /// The share of one item among `remaining` equal ones.
    pub fn equal(remaining: usize) -> (r: Ratio)
        requires
            remaining > 0,
        ensures
            r == equal_share(remaining as nat),
    {
        proof {
            assert(ONE / remaining as u64 <= ONE) by (nonlinear_arith)
                requires
                    remaining > 0,
            ;
        }
        let units: u128 = round24(ONE as u128, remaining as u128);
        Ratio { units: units as u64 }
    }

    /// What each side column gets beside this master share.
    pub fn side(self) -> (r: Ratio)
        requires
            self.units <= ONE,
        ensures
            r == side_share(self),
            r.units <= ONE,
    {
        let rest: u128 = round24((ONE - self.units) as u128, 1);
        Ratio { units: (rest / 2) as u64 }
    }

    /// This master share within the area right of the left column.
    pub fn inner(self) -> (r: Ratio)
        requires
            self.units <= ONE,
        ensures
            r == inner_share(self),
    {
        let side: Ratio = self.side();
        let sum: u128 = round24(self.units as u128 + side.units as u128, 1);
        proof {
            lemma_nearest24_bounds((ONE - self.units) as nat, 1);
            lemma_nearest24_bounds((self.units + side.units) as nat, 1);
            assert(self.units as u128 * ONE as u128 <= ONE as u128 * ONE as u128)
                by (nonlinear_arith)
                requires
                    self.units <= ONE,
            ;
        }
        let units: u128 = round24(self.units as u128 * ONE as u128, sum);
        proof {
            let top: int = self.units as int * ONE as int;
            assert(2 * sum >= self.units);
            assert(top / (sum as int) <= 2 * ONE) by (nonlinear_arith)
                requires
                    top == self.units as int * ONE as int,
                    2 * sum >= self.units,
                    sum > 0,
            ;
        }
        Ratio { units: units as u64 }
    }
}

/// The change of ratio that `amount` percent stands for, negative when
/// `shrink` is set.
pub fn percent_delta(amount: u16, shrink: bool) -> (r: i64)
    ensures
        r == (if shrink {
            -(percent(amount) as int)
        } else {
            percent(amount) as int
        }),
{
    assert(amount as u128 * ONE as u128 <= 0xffff * 0x100_0000_0000) by (nonlinear_arith)
        requires
            amount <= 0xffff,
    ;
    let units: u128 = round24(amount as u128 * ONE as u128, 100);
    if shrink {
        -(units as i64)
    } else {
        units as i64
    }
}

} // verus!
