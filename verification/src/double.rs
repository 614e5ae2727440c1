//! Numbers as the nearest doubles, for texts that are rounded from them.
//!
//! A ratio that is written with a few decimals is first taken to the nearest
//! number of 53 significant bits, and the text is rounded from that: at a
//! decimal tie the two differ.

use vstd::arithmetic::power2::{
    lemma2_to64, lemma2_to64_rest, lemma_pow2_adds, lemma_pow2_pos, lemma_pow2_strictly_increases,
    lemma_pow2_unfold, pow2,
};
use vstd::prelude::*;

verus! {

/// The least mantissa with all significant bits.
pub const MANTISSA_MIN: u128 = 0x10_0000_0000_0000;

/// The first number with too many significant bits.
pub const MANTISSA_END: u128 = 0x20_0000_0000_0000;

/// The largest denominator of a ratio: ten to the twenty-second.
pub const DENOMINATOR_MAX: u128 = 10_000_000_000_000_000_000_000;

/// The largest numerator of a ratio.
pub const NUMERATOR_MAX: u128 = 0x3fff_ffff_ffff_ffff_ffff_ffff_ffff_ffff;

/// The multiple of `unit` nearest to `n`, in units; a tie goes to the even one.
pub open spec fn round_half_even(n: int, unit: int) -> int {
    let q = n / unit;
    let r = n % unit;
    if 2 * r > unit || (2 * r == unit && q % 2 == 1) {
        q + 1
    } else {
        q
    }
}

/// How often a denominator is doubled until the ratio has at most the
/// significant bits.
pub open spec fn doublings_down(n: int, d: int) -> nat
    decreases n - d,
{
    if d > 0 && n >= MANTISSA_END * d {
        1 + doublings_down(n, 2 * d)
    } else {
        0
    }
}

/// How often a numerator is doubled until the ratio has all significant bits.
pub open spec fn doublings_up(n: int, d: int) -> nat
    decreases MANTISSA_END * d - n,
{
    if 0 < n < MANTISSA_MIN * d {
        1 + doublings_up(2 * n, d)
    } else {
        0
    }
}

/// A number as a mantissa and a power of two.
#[derive(Clone, Copy, Debug, PartialEq, Eq, Structural)]
pub struct Double {
    pub mantissa: u64,
    pub exponent: i32,
}

/// The mantissa and the power of two of the double nearest to a ratio; of two
/// that are equally near, the one with an even mantissa.
pub open spec fn double_of(n: int, d: int) -> (int, int) {
    if n <= 0 {
        (0, 0)
    } else if n >= MANTISSA_END * d {
        let k = doublings_down(n, d);
        (round_half_even(n, d * pow2(k)), k as int)
    } else {
        let k = doublings_up(n, d);
        (round_half_even(n * pow2(k), d), -(k as int))
    }
}

/// A double in units of `1 / unit`, to the nearest; a tie goes to the even one.
pub open spec fn units_of(x: (int, int), unit: int) -> int {
    if x.1 >= 0 {
        x.0 * pow2(x.1 as nat) * unit
    } else {
        round_half_even(x.0 * unit, pow2((-x.1) as nat) as int)
    }
}

/// The whole number at or below a double.
pub open spec fn whole_of(x: (int, int)) -> int {
    if x.1 >= 0 {
        x.0 * pow2(x.1 as nat)
    } else {
        x.0 / pow2((-x.1) as nat) as int
    }
}

/// The eighths of one in what a double has above its whole number.
pub open spec fn eighths_of(x: (int, int)) -> int {
    if x.1 >= 0 {
        0
    } else {
        let unit = pow2((-x.1) as nat) as int;
        (x.0 % unit) * 8 / unit
    }
}

/// The whole number nearest to a double; a tie goes up.
pub open spec fn rounded_of(x: (int, int)) -> int {
    if x.1 >= 0 {
        x.0 * pow2(x.1 as nat)
    } else {
        let unit = pow2((-x.1) as nat) as int;
        (2 * x.0 + unit) / (2 * unit)
    }
}

/// The lesser of two numbers.
pub open spec fn lesser(a: int, b: int) -> int {
    if a < b {
        a
    } else {
        b
    }
}

/// The double nearest to a whole multiple of a double.
pub open spec fn times(x: (int, int), k: int) -> (int, int) {
    let y = double_of(x.0 * k, 1);
    (y.0, y.1 + x.1)
}

/// The double nearest to the quotient of two.
pub open spec fn quotient(x: (int, int), y: (int, int)) -> (int, int) {
    let z = double_of(x.0, y.0);
    (z.0, z.1 + x.1 - y.1)
}

/// Rounds to the nearest multiple of a unit; a tie goes to the even one.
pub fn nearest(n: u128, unit: u128) -> (r: u128)
    requires
        0 < unit <= 0x7fff_ffff_ffff_ffff_ffff_ffff_ffff_ffff,
        unit > 1 || n < u128::MAX,
    ensures
        r == round_half_even(n as int, unit as int),
{
    let q: u128 = n / unit;
    let r: u128 = n % unit;
    proof {
        if unit > 1 {
            assert(q <= n / 2) by (nonlinear_arith)
                requires
                    q == n / unit,
                    unit >= 2,
            ;
        }
    }
    if 2 * r > unit || (2 * r == unit && q % 2 == 1) {
        q + 1
    } else {
        q
    }
}

/// A nearest multiple lies no further than half a unit away.
pub proof fn rounding_stays_near(n: int, unit: int)
    requires
        unit > 0,
        n >= 0,
    ensures
        0 <= round_half_even(n, unit),
        2 * (round_half_even(n, unit) * unit) <= 2 * n + unit,
        2 * n <= 2 * (round_half_even(n, unit) * unit) + unit,
{
    let q = n / unit;
    let r = n % unit;
    assert(n == q * unit + r && 0 <= r < unit && q >= 0) by (nonlinear_arith)
        requires
            unit > 0,
            n >= 0,
            q == n / unit,
            r == n % unit,
    ;
    assert((q + 1) * unit == q * unit + unit) by (nonlinear_arith);
}

impl Double {
    /// The mantissa and the power of two.
    pub open spec fn view(self) -> (int, int) {
        (self.mantissa as int, self.exponent as int)
    }

    /// A mantissa of 53 bits at the most, up to its rounding.
    pub open spec fn wf(self) -> bool {
        self.mantissa <= MANTISSA_END
    }

    /// The double nearest to a ratio.
    pub fn nearest_to(n: u128, d: u128) -> (r: Double)
        requires
            0 < d <= DENOMINATOR_MAX,
            n <= NUMERATOR_MAX,
        ensures
            r@ == double_of(n as int, d as int),
            r.wf(),
            -126 <= r.exponent <= 74,
            n > 0 ==> r.mantissa >= MANTISSA_MIN,
            n > 0 && r.exponent > 0 ==> MANTISSA_MIN * (d * pow2(r.exponent as nat)) <= n,
            n > 0 && n < MANTISSA_END * d ==> r.exponent <= 0 && MANTISSA_MIN * d <= n * pow2(
                (-r.exponent) as nat,
            ) < MANTISSA_END * d,
    {
        if n == 0 {
            return Double { mantissa: 0, exponent: 0 };
        }
        proof {
            lemma2_to64();
        }
        if n >= MANTISSA_END * d {
            let mut unit: u128 = d;
            let mut k: i32 = 0;
            proof {
                lemma_big_powers();
            }
            assert(d * pow2(0) == d) by (nonlinear_arith)
                requires
                    pow2(0) == 1,
            ;
            while n >= MANTISSA_END * unit
                invariant
                    0 <= k <= 74,
                    pow2(74) == 0x400_0000_0000_0000_0000,
                    unit >= 1,
                    d > 0,
                    unit >= pow2(k as nat),
                    unit == d * pow2(k as nat),
                    n >= MANTISSA_MIN * unit,
                    n <= NUMERATOR_MAX,
                    doublings_down(n as int, d as int) == k + doublings_down(
                        n as int,
                        unit as int,
                    ),
                decreases n - unit,
            {
                proof {
                    lemma_pow2_unfold((k + 1) as nat);
                    lemma_double_power(d as int, k as nat);
                    lemma_power_bound(k as nat, unit as int, 74);
                }
                unit = 2 * unit;
                k = k + 1;
            }
            let m: u128 = nearest(n, unit);
            proof {
                lemma_round_range(n as int, unit as int);
            }
            Double { mantissa: m as u64, exponent: k }
        } else {
            let mut scaled: u128 = n;
            let mut k: i32 = 0;
            proof {
                lemma_big_powers();
            }
            assert(n * pow2(0) == n) by (nonlinear_arith)
                requires
                    pow2(0) == 1,
            ;
            while scaled < MANTISSA_MIN * d
                invariant
                    0 <= k <= 126,
                    pow2(126) == 0x4000_0000_0000_0000_0000_0000_0000_0000,
                    0 < d <= DENOMINATOR_MAX,
                    n > 0,
                    scaled >= 1,
                    scaled >= pow2(k as nat),
                    scaled == n * pow2(k as nat),
                    scaled < MANTISSA_END * d,
                    doublings_up(n as int, d as int) == k + doublings_up(scaled as int, d as int),
                decreases MANTISSA_END * d - scaled,
            {
                proof {
                    lemma_pow2_unfold((k + 1) as nat);
                    lemma_double_power(n as int, k as nat);
                    lemma_power_bound(k as nat, scaled as int, 126);
                }
                scaled = 2 * scaled;
                k = k + 1;
            }
            let m: u128 = nearest(scaled, d);
            proof {
                lemma_round_range(scaled as int, d as int);
            }
            Double { mantissa: m as u64, exponent: -k }
        }
    }
}

/// No ratio is taken to a number below nothing.
pub proof fn double_is_not_negative(n: int, d: int)
    requires
        d > 0,
    ensures
        double_of(n, d).0 >= 0,
{
    if n > 0 {
        if n >= MANTISSA_END * d {
            let k = doublings_down(n, d);
            lemma_pow2_pos(k);
            assert(d * pow2(k) > 0) by (nonlinear_arith)
                requires
                    d > 0,
                    pow2(k) > 0,
            ;
            rounding_stays_near(n, d * pow2(k));
        } else {
            let k = doublings_up(n, d);
            lemma_pow2_pos(k);
            assert(n * pow2(k) > 0) by (nonlinear_arith)
                requires
                    n > 0,
                    pow2(k) > 0,
            ;
            rounding_stays_near(n * pow2(k), d);
        }
    }
}

/// The whole numbers of a number that is not below nothing are not below it
/// either.
pub proof fn wholes_are_not_negative(x: (int, int))
    ensures
        x.0 >= 0 ==> whole_of(x) >= 0 && rounded_of(x) >= 0 && eighths_of(x) >= 0,
{
    if x.0 >= 0 {
        if x.1 >= 0 {
            lemma_pow2_pos(x.1 as nat);
            assert(x.0 * pow2(x.1 as nat) >= 0) by (nonlinear_arith)
                requires
                    x.0 >= 0,
                    pow2(x.1 as nat) > 0,
            ;
        } else {
            let unit = pow2((-x.1) as nat) as int;
            lemma_pow2_pos((-x.1) as nat);
            assert(x.0 / unit >= 0 && (2 * x.0 + unit) / (2 * unit) >= 0 && (x.0 % unit) * 8 / unit
                >= 0) by (nonlinear_arith)
                requires
                    x.0 >= 0,
                    unit > 0,
            ;
        }
    }
}

/// A power of two.
fn power(k: u32) -> (r: u128)
    requires
        k <= 126,
    ensures
        r == pow2(k as nat),
{
    proof {
        lemma2_to64();
    }
    let mut r: u128 = 1;
    let mut i: u32 = 0;
    while i < k
        invariant
            i <= k <= 126,
            r == pow2(i as nat),
        decreases k - i,
    {
        proof {
            lemma_pow2_unfold((i + 1) as nat);
            lemma_small_power(i as nat);
        }
        r = 2 * r;
        i += 1;
    }
    r
}

proof fn lemma_small_power(k: nat)
    requires
        k <= 126,
    ensures
        0 < pow2(k) <= 0x4000_0000_0000_0000_0000_0000_0000_0000,
{
    lemma2_to64();
    lemma2_to64_rest();
    lemma_pow2_adds(64, 62);
    lemma_pow2_pos(k);
    if k < 126 {
        lemma_pow2_strictly_increases(k, 126);
    }
}

impl Double {
    /// The number in units of `1 / unit`, to the nearest; a tie goes to the
    /// even one.
    pub fn to_units(self, unit: u64) -> (r: u128)
        requires
            self.wf(),
            unit <= 1000,
            self.exponent <= 60 || self.mantissa == 0,
        ensures
            r == units_of(self@, unit as int),
    {
        if self.mantissa == 0 {
            proof {
                lemma_nothing(self.exponent as int, unit as int);
            }
            return 0;
        }
        assert(self.mantissa * unit <= MANTISSA_END * 1000) by (nonlinear_arith)
            requires
                self.mantissa <= MANTISSA_END,
                unit <= 1000,
        ;
        let n: u128 = self.mantissa as u128 * unit as u128;
        if self.exponent >= 0 {
            let scale: u128 = power(self.exponent as u32);
            proof {
                lemma_big_powers();
                if self.exponent < 60 {
                    lemma_pow2_strictly_increases(self.exponent as nat, 60);
                }
                assert(n * scale <= MANTISSA_END * 1000 * 0x1000_0000_0000_0000) by (nonlinear_arith)
                    requires
                        n <= MANTISSA_END * 1000,
                        scale <= 0x1000_0000_0000_0000,
                ;
                assert(n * scale == self.mantissa * scale * unit) by (nonlinear_arith)
                    requires
                        n == self.mantissa * unit,
                ;
            }
            n * scale
        } else if self.exponent < -100 {
            proof {
                lemma_vanishes(n as int, (-self.exponent) as nat);
            }
            0
        } else {
            let scale: u128 = power((-self.exponent) as u32);
            proof {
                lemma_small_power((-self.exponent) as nat);
            }
            nearest(n, scale)
        }
    }

    /// The number in units of a fine fraction, to the nearest; a tie goes to
    /// the even one.
    pub fn to_fine_units(self, unit: u128) -> (r: u128)
        requires
            self.wf(),
            0 < unit <= DENOMINATOR_MAX,
            -126 <= self.exponent <= 0,
        ensures
            r == units_of(self@, unit as int),
            r <= self.mantissa * unit,
    {
        assert(self.mantissa * unit <= MANTISSA_END * DENOMINATOR_MAX) by (nonlinear_arith)
            requires
                self.mantissa <= MANTISSA_END,
                unit <= DENOMINATOR_MAX,
        ;
        let n: u128 = self.mantissa as u128 * unit;
        let scale: u128 = power((-self.exponent) as u32);
        proof {
            lemma2_to64();
            lemma_small_power((-self.exponent) as nat);
            lemma_round_below(n as int, scale as int);
            assert(n as int / 1 == n && n as int % 1 == 0);
            if self.exponent == 0 {
                assert(n == self.mantissa * pow2(0) * unit) by (nonlinear_arith)
                    requires
                        n == self.mantissa * unit,
                        pow2(0) == 1,
                ;
            }
        }
        nearest(n, scale)
    }

    fn whole_multiple(self, limit: u16) -> (r: u16)
        requires
            self.wf(),
            self.exponent >= 0,
        ensures
            r == lesser(self.mantissa * pow2(self.exponent as nat), limit as int),
    {
        proof {
            lemma_big_powers();
            lemma_pow2_pos(self.exponent as nat);
        }
        if self.mantissa == 0 {
            assert(0 * pow2(self.exponent as nat) == 0) by (nonlinear_arith);
            return 0;
        }
        if self.exponent > 60 {
            proof {
                lemma_pow2_strictly_increases(60, self.exponent as nat);
            }
            assert(self.mantissa * pow2(self.exponent as nat) > limit) by (nonlinear_arith)
                requires
                    self.mantissa >= 1,
                    pow2(self.exponent as nat) > 0x1000_0000_0000_0000,
                    limit <= 0xffff,
            ;
            return limit;
        }
        let scale: u128 = power(self.exponent as u32);
        proof {
            if self.exponent < 60 {
                lemma_pow2_strictly_increases(self.exponent as nat, 60);
            }
        }
        assert(self.mantissa * scale <= MANTISSA_END * 0x1000_0000_0000_0000) by (nonlinear_arith)
            requires
                self.mantissa <= MANTISSA_END,
                scale <= 0x1000_0000_0000_0000,
        ;
        let n: u128 = self.mantissa as u128 * scale;
        if n < limit as u128 {
            n as u16
        } else {
            limit
        }
    }

    /// The whole number at or below the number, up to a limit.
    pub fn whole(self, limit: u16) -> (r: u16)
        requires
            self.wf(),
            -1000 <= self.exponent,
        ensures
            r == lesser(whole_of(self@), limit as int),
    {
        if self.exponent >= 0 {
            return self.whole_multiple(limit);
        }
        let k: u32 = (-self.exponent) as u32;
        if k > 100 {
            proof {
                lemma_far_below(self.mantissa as int, k as nat);
            }
            return 0;
        }
        let unit: u128 = power(k);
        proof {
            lemma_small_power(k as nat);
        }
        let n: u128 = self.mantissa as u128 / unit;
        if n < limit as u128 {
            n as u16
        } else {
            limit
        }
    }

    /// The eighths of one in what the number has above its whole number.
    pub fn eighths(self) -> (r: u64)
        requires
            self.wf(),
            -1000 <= self.exponent,
        ensures
            r == eighths_of(self@),
            r < 8,
    {
        if self.exponent >= 0 {
            return 0;
        }
        let k: u32 = (-self.exponent) as u32;
        if k > 100 {
            proof {
                lemma_far_below(self.mantissa as int, k as nat);
            }
            return 0;
        }
        let unit: u128 = power(k);
        proof {
            lemma_small_power(k as nat);
        }
        let rest: u128 = self.mantissa as u128 % unit;
        assert(rest <= self.mantissa) by (nonlinear_arith)
            requires
                rest == self.mantissa as u128 % unit,
                unit > 0,
                self.mantissa >= 0,
        ;
        let r: u128 = rest * 8 / unit;
        assert(r < 8) by (nonlinear_arith)
            requires
                r == rest * 8 / unit as int,
                0 <= rest < unit,
        ;
        r as u64
    }

    /// The whole number nearest to the number, up to a limit; a tie goes up.
    pub fn rounded(self, limit: u16) -> (r: u16)
        requires
            self.wf(),
            -1000 <= self.exponent,
        ensures
            r == lesser(rounded_of(self@), limit as int),
    {
        if self.exponent >= 0 {
            return self.whole_multiple(limit);
        }
        let k: u32 = (-self.exponent) as u32;
        if k > 100 {
            proof {
                lemma_far_below(self.mantissa as int, k as nat);
            }
            return 0;
        }
        let unit: u128 = power(k);
        proof {
            lemma2_to64();
            lemma2_to64_rest();
            lemma_pow2_adds(64, 36);
            lemma_pow2_pos(k as nat);
            if k < 100 {
                lemma_pow2_strictly_increases(k as nat, 100);
            }
        }
        let n: u128 = (2 * self.mantissa as u128 + unit) / (2 * unit);
        if n < limit as u128 {
            n as u16
        } else {
            limit
        }
    }

    /// The double nearest to a whole multiple.
    pub fn times(self, k: u32) -> (r: Double)
        requires
            self.wf(),
            -1000 <= self.exponent <= 1000,
        ensures
            r@ == times(self@, k as int),
            r.wf(),
            self.exponent - 126 <= r.exponent <= self.exponent + 74,
            k <= 1000 ==> r.exponent <= self.exponent + 11,
    {
        assert(self.mantissa * k <= MANTISSA_END * u32::MAX) by (nonlinear_arith)
            requires
                self.mantissa <= MANTISSA_END,
                k <= u32::MAX,
        ;
        let n: u128 = self.mantissa as u128 * k as u128;
        let y = Double::nearest_to(n, 1);
        proof {
            if k <= 1000 && y.exponent > 11 {
                assert(n <= MANTISSA_END * 1000) by (nonlinear_arith)
                    requires
                        n == self.mantissa * k,
                        self.mantissa <= MANTISSA_END,
                        k <= 1000,
                ;
                lemma_exponent(n as int, y.exponent as nat);
            }
        }
        Double { mantissa: y.mantissa, exponent: y.exponent + self.exponent }
    }

    /// The double nearest to a quotient.
    pub fn over(self, other: Double) -> (r: Double)
        requires
            self.wf(),
            other.wf(),
            other.mantissa > 0,
            -1000 <= self.exponent <= 1000,
            -1000 <= other.exponent <= 1000,
        ensures
            r@ == quotient(self@, other@),
            r.wf(),
            self.mantissa >= MANTISSA_MIN && other.mantissa >= MANTISSA_MIN ==> r.exponent
                <= self.exponent - other.exponent - 51,
            self.mantissa == 0 ==> r.mantissa == 0 && r.exponent == self.exponent - other.exponent,
    {
        let z = Double::nearest_to(self.mantissa as u128, other.mantissa as u128);
        proof {
            if self.mantissa >= MANTISSA_MIN && other.mantissa >= MANTISSA_MIN {
                lemma_shrinks(self.mantissa as int, other.mantissa as int, (-z.exponent) as nat);
            }
        }
        Double {
            mantissa: z.mantissa,
            exponent: z.exponent + self.exponent - other.exponent,
        }
    }
}

proof fn lemma_far_below(m: int, k: nat)
    requires
        0 <= m <= MANTISSA_END,
        k > 100,
    ensures
        m / pow2(k) as int == 0,
        (m % pow2(k) as int) * 8 / pow2(k) as int == 0,
        (2 * m + pow2(k)) / (2 * pow2(k) as int) == 0,
{
    lemma2_to64();
    lemma2_to64_rest();
    lemma_pow2_adds(64, 36);
    lemma_pow2_strictly_increases(100, k);
    let unit = pow2(k) as int;
    vstd::arithmetic::div_mod::lemma_small_mod(m as nat, unit as nat);
    vstd::arithmetic::div_mod::lemma_basic_div(m, unit);
    vstd::arithmetic::div_mod::lemma_basic_div(m * 8, unit);
    vstd::arithmetic::div_mod::lemma_basic_div(2 * m + unit, 2 * unit);
}

proof fn lemma_nothing(exponent: int, unit: int)
    ensures
        units_of((0, exponent), unit) == 0,
{
    if exponent >= 0 {
        assert(0 * pow2(exponent as nat) * unit == 0) by (nonlinear_arith);
    } else {
        let scale = pow2((-exponent) as nat) as int;
        lemma_pow2_pos((-exponent) as nat);
        assert(0 * unit == 0) by (nonlinear_arith);
        assert(0int / scale == 0 && 0int % scale == 0) by (nonlinear_arith)
            requires
                scale > 0,
        ;
    }
}

proof fn lemma_exponent(n: int, k: nat)
    requires
        n <= MANTISSA_END * 1000,
        MANTISSA_MIN * (1 * pow2(k)) <= n,
    ensures
        k <= 11,
{
    if k > 11 {
        lemma2_to64();
        lemma_pow2_strictly_increases(11, k);
        assert(MANTISSA_MIN * (1 * pow2(k)) > MANTISSA_END * 1000) by (nonlinear_arith)
            requires
                pow2(k) > 2048,
        ;
    }
}

proof fn lemma_round_below(n: int, unit: int)
    requires
        n >= 0,
        unit >= 1,
    ensures
        0 <= round_half_even(n, unit) <= n,
{
    let q = n / unit;
    let r = n % unit;
    assert(n == q * unit + r && 0 <= r < unit && q >= 0) by (nonlinear_arith)
        requires
            unit > 0,
            n >= 0,
            q == n / unit,
            r == n % unit,
    ;
    assert(q * unit >= q) by (nonlinear_arith)
        requires
            q >= 0,
            unit >= 1,
    ;
}

proof fn lemma_shrinks(n: int, d: int, k: nat)
    requires
        0 < n <= MANTISSA_END,
        d >= MANTISSA_MIN,
        MANTISSA_MIN * d <= n * pow2(k),
    ensures
        k >= 51,
{
    if k < 51 {
        lemma2_to64();
        lemma2_to64_rest();
        if k < 50 {
            lemma_pow2_strictly_increases(k, 50);
        }
        assert(n * pow2(k) <= MANTISSA_END * 0x4_0000_0000_0000) by (nonlinear_arith)
            requires
                0 < n <= MANTISSA_END,
                0 <= pow2(k) <= 0x4_0000_0000_0000,
        ;
    }
}

proof fn lemma_vanishes(n: int, k: nat)
    requires
        0 <= n <= MANTISSA_END * 1000,
        k > 100,
    ensures
        round_half_even(n, pow2(k) as int) == 0,
{
    lemma2_to64();
    lemma2_to64_rest();
    lemma_pow2_adds(64, 36);
    lemma_pow2_strictly_increases(100, k);
    let unit = pow2(k) as int;
    assert(n / unit == 0 && n % unit == n) by {
        vstd::arithmetic::div_mod::lemma_small_mod(n as nat, unit as nat);
        vstd::arithmetic::div_mod::lemma_basic_div(n, unit);
    }
}

proof fn lemma_double_power(n: int, k: nat)
    ensures
        n * pow2(k + 1) == 2 * (n * pow2(k)),
{
    lemma_pow2_unfold(k + 1);
    assert(n * (2 * pow2(k)) == 2 * (n * pow2(k))) by (nonlinear_arith);
}

proof fn lemma_big_powers()
    ensures
        pow2(60) == 0x1000_0000_0000_0000,
        pow2(74) == 0x400_0000_0000_0000_0000,
        pow2(126) == 0x4000_0000_0000_0000_0000_0000_0000_0000,
{
    lemma2_to64();
    lemma2_to64_rest();
    lemma_pow2_adds(64, 10);
    lemma_pow2_adds(64, 62);
}

proof fn lemma_power_bound(k: nat, bound: int, top: nat)
    requires
        pow2(k) <= bound < pow2(top),
    ensures
        k < top,
{
    if k > top {
        lemma_pow2_strictly_increases(top, k);
    }
}

proof fn lemma_round_range(n: int, unit: int)
    requires
        unit > 0,
        MANTISSA_MIN * unit <= n < MANTISSA_END * unit,
    ensures
        MANTISSA_MIN <= round_half_even(n, unit) <= MANTISSA_END,
{
    let q = n / unit;
    assert(MANTISSA_MIN <= q < MANTISSA_END) by (nonlinear_arith)
        requires
            unit > 0,
            MANTISSA_MIN * unit <= n < MANTISSA_END * unit,
            q == n / unit,
    ;
}

proof fn lemma_round_exact(q: int, unit: int)
    requires
        unit > 0,
    ensures
        round_half_even(q * unit, unit) == q,
{
    assert((q * unit) / unit == q && (q * unit) % unit == 0) by (nonlinear_arith)
        requires
            unit > 0,
    ;
}

/// Whole numbers of up to 53 bits are exact: a ratio that is one is written as
/// that one.
pub proof fn whole_numbers_are_exact(n: int, d: int, unit: int)
    requires
        0 <= n < MANTISSA_END,
        d > 0,
        unit >= 0,
    ensures
        units_of(double_of(n * d, d), unit) == n * unit,
{
    if n == 0 {
        lemma2_to64();
        assert(0 * d == 0 && 0 * pow2(0) * unit == 0 && 0 * unit == 0) by (nonlinear_arith);
    } else {
        let k = doublings_up(n * d, d);
        let p = pow2(k) as int;
        lemma_pow2_pos(k);
        assert(0 < n * d < MANTISSA_END * d) by (nonlinear_arith)
            requires
                0 < n < MANTISSA_END,
                d > 0,
        ;
        assert((n * d) * p == (n * p) * d) by (nonlinear_arith);
        lemma_round_exact(n * p, d);
        assert(double_of(n * d, d) == (n * p, -(k as int)));
        if k == 0 {
            lemma2_to64();
            assert((n * p) * pow2(0) * unit == n * unit) by (nonlinear_arith)
                requires
                    p == 1,
                    pow2(0) == 1,
            ;
        } else {
            assert((n * p) * unit == (n * unit) * p) by (nonlinear_arith);
            lemma_round_exact(n * unit, p);
        }
    }
}

proof fn lemma_up(n: int, d: int)
    requires
        d > 0,
        0 < n < MANTISSA_END * d,
    ensures
        MANTISSA_MIN * d <= n * pow2(doublings_up(n, d)) < MANTISSA_END * d,
    decreases MANTISSA_END * d - n,
{
    lemma2_to64();
    if n < MANTISSA_MIN * d {
        lemma_up(2 * n, d);
        let k = doublings_up(2 * n, d);
        lemma_pow2_unfold(k + 1);
        assert(n * (2 * pow2(k)) == (2 * n) * pow2(k)) by (nonlinear_arith);
    } else {
        assert(n * pow2(0) == n) by (nonlinear_arith)
            requires
                pow2(0) == 1,
        ;
    }
}

/// A double is no further from its ratio than half of its last bit, and has all
/// its 53 bits.
pub proof fn doubles_are_near(n: int, d: int)
    requires
        d > 0,
        0 < n < MANTISSA_END * d,
    ensures
        ({
            let x = double_of(n, d);
            let k = (-x.1) as nat;
            &&& x.1 <= 0
            &&& MANTISSA_MIN <= x.0 <= MANTISSA_END
            &&& 2 * (x.0 * d) <= 2 * (n * pow2(k)) + d
            &&& 2 * (n * pow2(k)) <= 2 * (x.0 * d) + d
        }),
{
    lemma_up(n, d);
    let k = doublings_up(n, d);
    lemma_round_range(n * pow2(k), d);
    rounding_stays_near(n * pow2(k), d);
}

/// A number in units is no further from the double than half a unit.
pub proof fn units_are_near(m: int, k: nat, unit: int)
    requires
        m >= 0,
        unit >= 0,
        k > 0,
    ensures
        ({
            let r = units_of((m, -(k as int)), unit);
            &&& 2 * (r * pow2(k)) <= 2 * (m * unit) + pow2(k)
            &&& 2 * (m * unit) <= 2 * (r * pow2(k)) + pow2(k)
        }),
{
    lemma_pow2_pos(k);
    assert(m * unit >= 0) by (nonlinear_arith)
        requires
            m >= 0,
            unit >= 0,
    ;
    rounding_stays_near(m * unit, pow2(k) as int);
}

proof fn lemma_halving(w: int, j: nat, d: int)
    requires
        0 < w < MANTISSA_END,
        j <= 52,
        d > 0,
        d * pow2(j) == pow2(52),
    ensures
        doublings_down(w * pow2(52), d) <= j,
    decreases j,
{
    lemma_pow2_pos(j);
    let n = w * pow2(52);
    if n >= MANTISSA_END * d {
        if j == 0 {
            lemma2_to64();
            assert(n < MANTISSA_END * d) by (nonlinear_arith)
                requires
                    n == w * pow2(52),
                    d * pow2(0) == pow2(52),
                    pow2(0) == 1,
                    w < MANTISSA_END,
                    d > 0,
            ;
        } else {
            lemma_pow2_unfold(j);
            assert((2 * d) * pow2((j - 1) as nat) == pow2(52)) by (nonlinear_arith)
                requires
                    d * pow2(j) == pow2(52),
                    pow2(j) == 2 * pow2((j - 1) as nat),
            ;
            lemma_halving(w, (j - 1) as nat, 2 * d);
        }
    }
}

/// The whole of a number of things is that number of them.
pub proof fn wholes_are_whole(whole: int, width: int)
    requires
        whole > 0,
        0 < width < 0x1_0000_0000,
    ensures
        ({
            let x = times(double_of(whole, whole), width);
            &&& whole_of(x) == width
            &&& eighths_of(x) == 0
            &&& rounded_of(x) == width
            &&& units_of(x, 1) == width
        }),
{
    lemma2_to64();
    lemma2_to64_rest();
    lemma_one(whole);
    let p = pow2(52) as int;
    assert(p == MANTISSA_MIN);
    assert(p * width == width * p) by (nonlinear_arith);
    let n = width * p;
    assert(n > 0) by (nonlinear_arith)
        requires
            n == width * p,
            width > 0,
            p > 0,
    ;
    let y = double_of(n, 1);
    if n >= MANTISSA_END * 1 {
        let k = doublings_down(n, 1);
        assert(1 * pow2(52) == pow2(52));
        lemma_halving(width, 52, 1);
        let rest = (52 - k) as nat;
        lemma_pow2_adds(k, rest);
        lemma_pow2_pos(k);
        lemma_pow2_pos(rest);
        let q = width * pow2(rest);
        assert(n == q * pow2(k)) by (nonlinear_arith)
            requires
                n == width * p,
                p == pow2(k) * pow2(rest),
                q == width * pow2(rest),
        ;
        assert(1 * pow2(k) == pow2(k));
        lemma_round_exact(q, pow2(k) as int);
        assert(y == (q, k as int));
        lemma_scaled(width, rest);
        if k == 52 {
            assert(q == width) by (nonlinear_arith)
                requires
                    q == width * pow2(rest),
                    pow2(rest) == 1,
            ;
        }
    } else {
        assert(width == 1) by (nonlinear_arith)
            requires
                width * p < 2 * p,
                width > 0,
                p > 0,
        ;
        assert(n == MANTISSA_MIN);
        let k = doublings_up(n, 1);
        assert(k == 0);
        assert(n * pow2(0) == n) by (nonlinear_arith)
            requires
                pow2(0) == 1,
        ;
        lemma_round_exact(n, 1);
        assert(y == (n, 0int));
        lemma_scaled(width, 52);
    }
}

proof fn lemma_one(whole: int)
    requires
        whole > 0,
    ensures
        double_of(whole, whole) == (pow2(52) as int, -52int),
{
    lemma2_to64();
    lemma2_to64_rest();
    lemma_up_to_one(whole, 0);
    assert(doublings_up(whole, whole) == 52) by {
        assert(whole * pow2(0) == whole) by (nonlinear_arith)
            requires
                pow2(0) == 1,
        ;
    }
    lemma_round_exact(pow2(52) as int, whole);
    assert(whole * pow2(52) == pow2(52) * whole) by (nonlinear_arith);
    assert(whole < MANTISSA_END * whole) by (nonlinear_arith)
        requires
            whole > 0,
            MANTISSA_END > 1,
    ;
}

proof fn lemma_up_to_one(whole: int, j: nat)
    requires
        whole > 0,
        j <= 52,
    ensures
        doublings_up(whole * pow2(j), whole) == 52 - j,
    decreases 52 - j,
{
    lemma2_to64();
    lemma2_to64_rest();
    lemma_pow2_pos(j);
    let n = whole * pow2(j);
    assert(n > 0) by (nonlinear_arith)
        requires
            n == whole * pow2(j),
            whole > 0,
            pow2(j) > 0,
    ;
    if j < 52 {
        lemma_pow2_strictly_increases(j, 52);
        assert(n < MANTISSA_MIN * whole) by (nonlinear_arith)
            requires
                n == whole * pow2(j),
                pow2(j) < MANTISSA_MIN,
                whole > 0,
        ;
        lemma_pow2_unfold(j + 1);
        assert(2 * n == whole * pow2(j + 1)) by (nonlinear_arith)
            requires
                n == whole * pow2(j),
                pow2(j + 1) == 2 * pow2(j),
        ;
        lemma_up_to_one(whole, j + 1);
    } else {
        assert(n == MANTISSA_MIN * whole) by (nonlinear_arith)
            requires
                n == whole * pow2(j),
                pow2(j) == MANTISSA_MIN,
        ;
    }
}

proof fn lemma_scaled(width: int, rest: nat)
    requires
        width > 0,
    ensures
        ({
            let x = (width * pow2(rest), -(rest as int));
            &&& whole_of(x) == width
            &&& eighths_of(x) == 0
            &&& rounded_of(x) == width
            &&& units_of(x, 1) == width
        }),
{
    lemma2_to64();
    lemma_pow2_pos(rest);
    let unit = pow2(rest) as int;
    let m = width * unit;
    if rest == 0 {
        assert(m * pow2(0) == width && m * pow2(0) * 1 == width) by (nonlinear_arith)
            requires
                m == width * unit,
                unit == 1,
                pow2(0) == 1,
        ;
    } else {
        assert(m / unit == width && m % unit == 0) by (nonlinear_arith)
            requires
                m == width * unit,
                unit > 0,
        ;
        assert(0int * 8 / unit == 0) by (nonlinear_arith)
            requires
                unit > 0,
        ;
        assert((2 * m + unit) / (2 * unit) == width) by (nonlinear_arith)
            requires
                m == width * unit,
                unit > 0,
        ;
        assert(m * 1 == width * unit);
        lemma_round_exact(width, unit);
    }
}

} // verus!
