//! Split ratios and the single-precision arithmetic behind them.
//!
//! A split sits at a ratio of its area that is a single-precision number
//! between 0.1 and 0.9. Every such number is a whole multiple of 2^-27, so a
//! [`Ratio`] stores that multiple, and the few operations on it are carried out
//! on integers with the rounding that binary32 prescribes: 24 significant bits,
//! to nearest, ties to even.

use vstd::arithmetic::div_mod;
use vstd::arithmetic::power2;
use vstd::prelude::*;

verus! {

/// The number of units in the ratio 1.0.
pub const ONE: u64 = 0x800_0000;

/// The smallest ratio a resize leaves behind: the single-precision 0.1.
pub const LEAST: u64 = 13421773;

/// The largest ratio a resize leaves behind: the single-precision 0.9.
pub const MOST: u64 = 120795952;

/// Whole numbers below this bound are exact in single precision.
pub const EXACT: u64 = 0x100_0000;

/// Units per unit of a [`Ratio`] in the intermediate sums of a resize.
pub const FINE: u64 = 0x1000_0000;

/// Units of the intermediate sums of a resize in the ratio 1.0.
pub const FINE_ONE: u128 = 0x80_0000_0000_0000;

/// The weight of the last significant bit of `n` in single precision.
pub open spec fn unit(n: nat) -> nat
    decreases n,
{
    if n < EXACT {
        1
    } else {
        2 * unit(n / 2)
    }
}

/// The single-precision number nearest to `num / den`, where both the result
/// and the quotient are whole multiples of the least representable step.
pub open spec fn nearest(num: nat, den: nat) -> nat {
    let u = unit(num / den);
    let step = den * u;
    let q = num / step;
    let r = num % step;
    if 2 * r > step || (2 * r == step && q % 2 == 1) {
        (q + 1) * u
    } else {
        q * u
    }
}

/// The single-precision number nearest to the whole number `n`.
pub open spec fn single(n: nat) -> nat {
    nearest(n, 1)
}

/// Where a split of `ratio` units sits in a length of `total` pixels: the
/// single-precision product, rounded to the nearest pixel with halves up, and
/// kept inside the length.
pub open spec fn offset_spec(ratio: nat, total: nat) -> nat {
    let px = (single(single(total) * ratio) + (ONE / 2) as nat) / (ONE as nat);
    if px <= total {
        px
    } else {
        total
    }
}

/// The part of the whole by which a split moves when it is pushed by `delta`
/// pixels of `total`, in 2^-55ths.
pub open spec fn shift_spec(delta: nat, total: nat) -> nat {
    nearest(single(delta) * FINE_ONE as nat, single(total))
}

/// The single-precision number nearest to a sum that may be negative.
pub open spec fn single_signed(s: int) -> int {
    if s >= 0 {
        single(s as nat) as int
    } else {
        -single((-s) as nat)
    }
}

/// The ratio after a split at `ratio` is moved by `delta` pixels of `total`,
/// towards the end where `delta` is positive: the single-precision sum, kept
/// between 0.1 and 0.9.
pub open spec fn pushed_spec(ratio: nat, delta: int, total: nat) -> nat {
    let shift = if delta >= 0 {
        shift_spec(delta as nat, total) as int
    } else {
        -shift_spec((-delta) as nat, total)
    };
    let sum = single_signed(ratio * FINE + shift);
    if sum < LEAST * FINE {
        LEAST as nat
    } else if sum > MOST * FINE {
        MOST as nat
    } else {
        (sum / FINE as int) as nat
    }
}

/// `unit` never exceeds the number itself, nor grows past what 24 bits leave.
proof fn lemma_unit_bounds(n: nat)
    ensures
        1 <= unit(n),
        n >= EXACT ==> unit(n) * 0x80_0000 <= n,
        n < unit(n) * EXACT,
    decreases n,
{
    if n >= EXACT {
        lemma_unit_bounds(n / 2);
    }
}

/// Rounding a quotient down to a multiple of `u` does not exceed it.
proof fn lemma_floor_step(num: nat, den: nat, u: nat)
    requires
        den > 0,
        u > 0,
    ensures
        den * u > 0,
        (num / (den * u)) * u <= num / den,
        num / den < (num / (den * u) + 1) * u,
{
    let step = den * u;
    assert(step > 0) by (nonlinear_arith)
        requires
            den > 0,
            u > 0,
            step == den * u,
    ;
    let q = num / step;
    let n = num / den;
    div_mod::lemma_fundamental_div_mod(num as int, step as int);
    div_mod::lemma_fundamental_div_mod(num as int, den as int);
    let r = num % step;
    let m = num % den;
    assert(0 <= r < step);
    assert(0 <= m < den);
    assert(q * u <= n) by (nonlinear_arith)
        requires
            num == (den * u) * q + r,
            num == den * n + m,
            0 <= r,
            m < den,
            den > 0,
    ;
    assert(n < (q + 1) * u) by (nonlinear_arith)
        requires
            num == (den * u) * q + r,
            num == den * n + m,
            r < den * u,
            0 <= m,
            den > 0,
    ;
}

fn unit_of(n: u128) -> (u: u128)
    ensures
        u == unit(n as nat),
    decreases n,
{
    if n < EXACT as u128 {
        1
    } else {
        proof {
            lemma_unit_bounds(n as nat);
            lemma_unit_bounds((n / 2) as nat);
        }
        2 * unit_of(n / 2)
    }
}

fn nearest_of(num: u128, den: u128) -> (r: u128)
    requires
        0 < den <= 0x1_0000_0000,
        num <= 0x1_0000_0000_0000_0000_0000_0000,
    ensures
        r == nearest(num as nat, den as nat),
{
    let n: u128 = num / den;
    let u: u128 = unit_of(n);
    proof {
        lemma_unit_bounds(n as nat);
        lemma_floor_step(num as nat, den as nat, u as nat);
        assert(n <= num && den * n <= num) by (nonlinear_arith)
            requires
                den > 0,
                n == num / den,
        ;
        assert(den * u <= num || den * u == den) by (nonlinear_arith)
            requires
                den > 0,
                den * n <= num,
                u <= n || u == 1,
        ;
    }
    let step: u128 = den * u;
    let q: u128 = num / step;
    let r: u128 = num % step;
    proof {
        assert((q + 1) * u == q * u + u) by (nonlinear_arith);
        assert(q <= num) by (nonlinear_arith)
            requires
                q == num / step,
                step > 0,
        ;
    }
    if 2 * r > step || (2 * r == step && q % 2 == 1) {
        (q + 1) * u
    } else {
        q * u
    }
}

/// The position of a split, in 2^-27ths of the length that is split.
#[derive(Debug, Clone, Copy, PartialEq, Eq, Hash, Structural)]
pub struct Ratio {
    pub units: u32,
}

impl Ratio {
    /// A ratio that a split of a tree can have: a single-precision number
    /// between 0.1 and 0.9.
    pub open spec fn valid(self) -> bool {
        &&& LEAST <= self.units <= MOST
        &&& single(self.units as nat) == self.units
    }

    /// A split in the middle.
    pub fn half() -> (r: Self)
        ensures
            r.units * 2 == ONE,
            r.valid(),
    {
        proof {
            lemma_half_valid();
        }
        Ratio { units: 0x400_0000 }
    }

    /// The pixel at which this ratio splits a length of `total` pixels.
    pub fn offset(self, total: i32) -> (px: i32)
        requires
            total >= 0,
        ensures
            px == offset_spec(self.units as nat, total as nat),
            0 <= px <= total,
    {
        let whole: u128 = nearest_of(total as u128, 1);
        proof {
            lemma_single_close(total as nat);
            assert(whole * self.units <= 0x1_0000_0000 * 0x1_0000_0000) by (nonlinear_arith)
                requires
                    0 <= whole <= 0x1_0000_0000,
                    0 <= self.units <= 0x1_0000_0000,
            ;
        }
        let product: u128 = whole * self.units as u128;
        proof {
            lemma_single_close(product as nat);
        }
        let px: u128 = (nearest_of(product, 1) + 0x400_0000) / 0x800_0000;
        if px <= total as u128 {
            px as i32
        } else {
            total
        }
    }

    /// This ratio after its split is moved by `delta` pixels of `total`,
    /// towards the end where `delta` is positive.
    pub fn pushed(self, delta: i64, total: i32) -> (r: Self)
        requires
            self.valid(),
            total > 0,
            -0x8000_0000 <= delta <= 0x8000_0000,
        ensures
            r.units == pushed_spec(self.units as nat, delta as int, total as nat),
            r.valid(),
    {
        let size: u128 = if delta >= 0 {
            delta as u128
        } else {
            (-delta) as u128
        };
        let part: u128 = nearest_of(size, 1);
        let whole: u128 = nearest_of(total as u128, 1);
        proof {
            lemma_single_close(size as nat);
            lemma_single_close(total as nat);
            lemma_pushed_valid(self.units as nat, delta as int, total as nat);
        }
        let shift: u128 = nearest_of(part * FINE_ONE, whole);
        proof {
            lemma_nearest_close((part * FINE_ONE) as nat, whole as nat);
        }
        let at: u128 = self.units as u128 * FINE as u128;
        proof {
            assert(at <= 0x1_0000_0000_0000_0000) by (nonlinear_arith)
                requires
                    at == self.units * FINE,
                    self.units < 0x1_0000_0000,
                    FINE == 0x1000_0000,
            ;
        }
        if delta >= 0 {
            let sum: u128 = nearest_of(at + shift, 1);
            if sum < LEAST as u128 * FINE as u128 {
                Ratio { units: LEAST as u32 }
            } else if sum > MOST as u128 * FINE as u128 {
                Ratio { units: MOST as u32 }
            } else {
                Ratio { units: (sum / FINE as u128) as u32 }
            }
        } else if shift > at {
            Ratio { units: LEAST as u32 }
        } else {
            let sum: u128 = nearest_of(at - shift, 1);
            if sum < LEAST as u128 * FINE as u128 {
                Ratio { units: LEAST as u32 }
            } else if sum > MOST as u128 * FINE as u128 {
                Ratio { units: MOST as u32 }
            } else {
                Ratio { units: (sum / FINE as u128) as u32 }
            }
        }
    }
}

/// The last significant bit is a power of two.
proof fn lemma_unit_is_pow2(n: nat) -> (i: nat)
    ensures
        unit(n) == power2::pow2(i),
    decreases n,
{
    if n < EXACT {
        power2::lemma2_to64();
        0
    } else {
        let i = lemma_unit_is_pow2(n / 2);
        power2::lemma_pow2_unfold(i + 1);
        i + 1
    }
}

/// A number of at most 24 bits, shifted left by `j`, has its last significant
/// bit at or below position `j`.
proof fn lemma_unit_scaled(k: nat, j: nat) -> (i: nat)
    requires
        k < EXACT,
    ensures
        unit(k * power2::pow2(j)) == power2::pow2(i),
        i <= j,
    decreases j,
{
    power2::lemma2_to64();
    let n = k * power2::pow2(j);
    if j == 0 {
        assert(n == k) by (nonlinear_arith)
            requires
                n == k * power2::pow2(j),
                power2::pow2(j) == 1,
        ;
        0
    } else if n < EXACT {
        0
    } else {
        let half = (j - 1) as nat;
        power2::lemma_pow2_unfold(j);
        assert(n / 2 == k * power2::pow2(half)) by (nonlinear_arith)
            requires
                n == k * power2::pow2(j),
                power2::pow2(j) == 2 * power2::pow2(half),
        ;
        let i = lemma_unit_scaled(k, half);
        power2::lemma_pow2_unfold(i + 1);
        i + 1
    }
}

/// A number of at most 24 bits, shifted left, is exact in single precision.
proof fn lemma_single_scaled(k: nat, j: nat)
    requires
        k <= EXACT,
    ensures
        single(k * power2::pow2(j)) == k * power2::pow2(j),
    decreases k,
{
    if k == EXACT {
        power2::lemma_pow2_unfold(j + 1);
        assert(k * power2::pow2(j) == 0x80_0000 * power2::pow2(j + 1)) by (nonlinear_arith)
            requires
                k == 0x100_0000,
                power2::pow2(j + 1) == 2 * power2::pow2(j),
        ;
        lemma_single_scaled(0x80_0000, j + 1);
    } else {
        let n = k * power2::pow2(j);
        let i = lemma_unit_scaled(k, j);
        let d = (j - i) as nat;
        let u = power2::pow2(i);
        power2::lemma_pow2_adds(i, d);
        power2::lemma_pow2_pos(i);
        let q = k * power2::pow2(d);
        assert(n == q * u) by (nonlinear_arith)
            requires
                n == k * power2::pow2(j),
                power2::pow2(j) == u * power2::pow2(d),
                q == k * power2::pow2(d),
        ;
        div_mod::lemma_div_multiples_vanish(q as int, u as int);
        div_mod::lemma_mod_multiples_basic(q as int, u as int);
        assert(u * q == q * u) by (nonlinear_arith);
        assert(n / u == q);
        assert(n % u == 0);
    }
}

/// A larger number has the same last significant bit or one at least twice as
/// heavy.
proof fn lemma_unit_monotone(a: nat, b: nat)
    requires
        a <= b,
    ensures
        unit(a) == unit(b) || 2 * unit(a) <= unit(b),
    decreases b,
{
    if a >= EXACT {
        lemma_unit_monotone(a / 2, b / 2);
    } else if b >= EXACT {
        lemma_unit_bounds(b / 2);
    }
}

/// Rounding to single precision keeps the order.
proof fn lemma_single_monotone(a: nat, b: nat)
    requires
        a <= b,
    ensures
        single(a) <= single(b),
{
    let ua = unit(a);
    let ub = unit(b);
    lemma_unit_bounds(a);
    lemma_unit_bounds(b);
    lemma_unit_monotone(a, b);
    let qa = a / ua;
    let qb = b / ub;
    div_mod::lemma_fundamental_div_mod(a as int, ua as int);
    div_mod::lemma_fundamental_div_mod(b as int, ub as int);
    assert(qa * ua <= single(a) <= (qa + 1) * ua) by {
        assert((qa + 1) * ua == qa * ua + ua) by (nonlinear_arith);
    }
    assert(qb * ub <= single(b)) by {
        assert((qb + 1) * ub == qb * ub + ub) by (nonlinear_arith);
    }
    if ua == ub {
        assert(qa <= qb) by (nonlinear_arith)
            requires
                qa == a / ua,
                qb == b / ua,
                a <= b,
                ua >= 1,
        ;
        if qa < qb {
            assert((qa + 1) * ua <= qb * ub) by (nonlinear_arith)
                requires
                    qa + 1 <= qb,
                    ua == ub,
            ;
        }
    } else {
        assert((qa + 1) * ua <= EXACT * ua) by (nonlinear_arith)
            requires
                a == ua * qa + a % ua,
                a % ua >= 0,
                a < ua * EXACT,
                ua >= 1,
        ;
        assert(0x80_0000 <= qb) by (nonlinear_arith)
            requires
                b == ub * qb + b % ub,
                b % ub < ub,
                ub * 0x80_0000 <= b,
                ub >= 1,
        ;
        assert(0x80_0000 * ub <= qb * ub) by (nonlinear_arith)
            requires
                0x80_0000 <= qb,
        ;
    }
}

/// A single-precision number stays one when it is shifted left.
proof fn lemma_exact_shifted(n: nat, j: nat)
    requires
        single(n) == n,
    ensures
        single(n * power2::pow2(j)) == n * power2::pow2(j),
{
    let i = lemma_unit_is_pow2(n);
    let u = unit(n);
    lemma_unit_bounds(n);
    div_mod::lemma_fundamental_div_mod(n as int, u as int);
    let q = n / u;
    assert((q + 1) * u == q * u + u) by (nonlinear_arith);
    assert(u * q == q * u) by (nonlinear_arith);
    assert(n == q * u);
    assert(q <= EXACT) by (nonlinear_arith)
        requires
            n == q * u,
            n < u * EXACT,
            u >= 1,
    ;
    power2::lemma_pow2_adds(i, j);
    assert(n * power2::pow2(j) == q * power2::pow2(i + j)) by (nonlinear_arith)
        requires
            n == q * power2::pow2(i),
            power2::pow2(i + j) == power2::pow2(i) * power2::pow2(j),
    ;
    lemma_single_scaled(q, i + j);
}

/// The middle is a valid place for a split.
pub proof fn lemma_half_valid()
    ensures
        (Ratio { units: 0x400_0000 }).valid(),
{
    power2::lemma2_to64();
    lemma_single_scaled(1, 26);
}

/// A moved split sits at a single-precision ratio between 0.1 and 0.9 again.
pub proof fn lemma_pushed_valid(ratio: nat, delta: int, total: nat)
    ensures
        LEAST <= pushed_spec(ratio, delta, total) <= MOST,
        single(pushed_spec(ratio, delta, total)) == pushed_spec(ratio, delta, total),
{
    power2::lemma2_to64();
    lemma_single_scaled(LEAST as nat, 0);
    lemma_single_scaled(15099494, 3);
    let shift = if delta >= 0 {
        shift_spec(delta as nat, total) as int
    } else {
        -shift_spec((-delta) as nat, total)
    };
    let s = ratio * FINE + shift;
    let sum = single_signed(s);
    if LEAST * FINE <= sum <= MOST * FINE {
        let n = s as nat;
        let floor: nat = 0x8_0000_0000_0000;
        power2::lemma_pow2_adds(32, 19);
        assert(power2::pow2(51) == floor);
        lemma_single_scaled(1, 51);
        if n < floor {
            lemma_single_monotone(n, floor);
        }
        let i = lemma_unit_is_pow2(n);
        let u = unit(n);
        lemma_unit_bounds(n);
        if i < 28 {
            if i < 27 {
                power2::lemma_pow2_strictly_increases(i, 27);
            }
            assert(u <= 0x800_0000);
            assert(false);
        }
        let d = (i - 28) as nat;
        power2::lemma_pow2_adds(28, d);
        let q = n / u;
        div_mod::lemma_fundamental_div_mod(n as int, u as int);
        let k = if 2 * (n % u) > u || (2 * (n % u) == u && q % 2 == 1) {
            q + 1
        } else {
            q
        };
        assert(sum == k * u);
        assert(q < EXACT) by (nonlinear_arith)
            requires
                n == u * q + n % u,
                n % u >= 0,
                n < u * EXACT,
                u >= 1,
        ;
        assert(k * u == (k * power2::pow2(d)) * FINE) by (nonlinear_arith)
            requires
                u == power2::pow2(28) * power2::pow2(d),
                power2::pow2(28) == FINE,
        ;
        lemma_single_scaled(k, d);
        assert(sum / FINE as int == k * power2::pow2(d));
    }
}

/// Pushing a split towards the end never moves it back, and pushing it towards
/// the origin never moves it forward.
pub proof fn law_push_direction(ratio: Ratio, delta: int, total: nat)
    requires
        ratio.valid(),
        total > 0,
    ensures
        delta >= 0 ==> pushed_spec(ratio.units as nat, delta, total) >= ratio.units,
        delta <= 0 ==> pushed_spec(ratio.units as nat, delta, total) <= ratio.units,
        LEAST <= pushed_spec(ratio.units as nat, delta, total) <= MOST,
{
    let n = ratio.units as nat;
    power2::lemma2_to64();
    lemma_pushed_valid(n, delta, total);
    lemma_exact_shifted(n, 28);
    let at = n * FINE as nat;
    assert(at == n * power2::pow2(28));
    if delta >= 0 {
        let s = at + shift_spec(delta as nat, total);
        lemma_single_monotone(at, s);
    }
    if delta <= 0 {
        let shift = shift_spec((-delta) as nat, total);
        if delta == 0 {
            lemma_single_scaled(0, 0);
            assert(single(0) == 0);
            lemma_single_close(total);
            let den = single(total);
            assert(0nat / den == 0 && 0nat % den == 0) by (nonlinear_arith)
                requires
                    den > 0,
            ;
            assert(den * unit(0) == den) by (nonlinear_arith)
                requires
                    unit(0) == 1,
            ;
            assert(nearest(0, den) == 0);
        }
        if shift <= at {
            lemma_single_monotone((at - shift) as nat, at);
        }
    }
}

/// A split between 0.1 and 0.9 leaves each side at least a tenth of the length,
/// in whole pixels.
pub proof fn law_split_keeps_a_tenth(ratio: Ratio, total: nat)
    requires
        ratio.valid(),
        total < EXACT,
    ensures
        total / 10 <= offset_spec(ratio.units as nat, total),
        offset_spec(ratio.units as nat, total) <= total - total / 10,
{
    let n = ratio.units as nat;
    power2::lemma2_to64();
    lemma_single_scaled(total, 0);
    let x = total * n;
    let tenth = total / 10;
    let rest = (total - tenth) as nat;
    assert(tenth * ONE <= x) by (nonlinear_arith)
        requires
            x == total * n,
            tenth * 10 <= total,
            n * 10 >= ONE,
    ;
    assert(x <= rest * ONE) by (nonlinear_arith)
        requires
            x == total * n,
            n * 10 <= ONE * 9,
            n <= ONE,
            rest * 10 >= total * 9,
            total >= 0,
    ;
    lemma_single_scaled(tenth, 27);
    lemma_single_scaled(rest, 27);
    lemma_single_monotone(tenth * power2::pow2(27), x);
    lemma_single_monotone(x, rest * power2::pow2(27));
}

/// A split in the middle leaves both sides the same, or the first one pixel more.
pub proof fn law_middle_halves(total: nat)
    requires
        total < EXACT,
    ensures
        2 * offset_spec(0x400_0000, total) == total || 2 * offset_spec(0x400_0000, total) == total
            + 1,
{
    power2::lemma2_to64();
    power2::lemma2_to64_rest();
    lemma_single_scaled(total, 0);
    assert(total * power2::pow2(0) == total) by (nonlinear_arith)
        requires
            power2::pow2(0) == 1,
    ;
    lemma_single_scaled(total, 26);
    assert(power2::pow2(26) == 0x400_0000);
    assert(total * power2::pow2(26) == total * 0x400_0000);
}

/// A split at a larger ratio is never before one at a smaller ratio.
pub proof fn law_larger_ratio_is_no_earlier(a: nat, b: nat, total: nat)
    requires
        a <= b,
    ensures
        offset_spec(a, total) <= offset_spec(b, total),
{
    let whole = single(total);
    assert(whole * a <= whole * b) by (nonlinear_arith)
        requires
            a <= b,
    ;
    lemma_single_monotone(whole * a, whole * b);
}

/// A rounded quotient stays within a factor of two of the quotient.
proof fn lemma_nearest_close(num: nat, den: nat)
    requires
        den > 0,
    ensures
        nearest(num, den) <= 2 * (num / den) + 1,
{
    let n = num / den;
    let u = unit(n);
    lemma_unit_bounds(n);
    lemma_floor_step(num, den, u);
    let q = num / (den * u);
    assert((q + 1) * u == q * u + u) by (nonlinear_arith);
    if n < EXACT {
        assert(u == 1);
    }
}

proof fn lemma_single_close(n: nat)
    ensures
        single(n) <= 2 * n + 1,
        n > 0 ==> single(n) > 0,
        n <= 0x8000_0000 ==> single(n) <= 0x8000_0000,
{
    lemma_nearest_close(n, 1);
    if n <= 0x8000_0000 {
        power2::lemma2_to64();
        lemma_single_scaled(1, 31);
        lemma_single_monotone(n, 0x8000_0000);
    }
    if n > 0 {
        lemma_single_scaled(1, 0);
        power2::lemma2_to64();
        lemma_single_monotone(1, n);
    }
}

/// A rounded quotient is off by no more than half of its last bit.
proof fn lemma_nearest_error(num: nat, den: nat, most: nat)
    requires
        den > 0,
        num / den <= most,
        most >= EXACT,
    ensures
        0x100_0000 * (den * nearest(num, den) - num) <= den * most,
        0x100_0000 * (num - den * nearest(num, den)) <= den * most,
{
    let n = num / den;
    let u = unit(n);
    lemma_unit_bounds(n);
    let step = den * u;
    assert(step > 0) by (nonlinear_arith)
        requires
            step == den * u,
            den > 0,
            u > 0,
    ;
    div_mod::lemma_fundamental_div_mod(num as int, step as int);
    let q = num / step;
    let r = num % step;
    assert(den * (q * u) == step * q && den * ((q + 1) * u) == step * q + step)
        by (nonlinear_arith)
        requires
            step == den * u,
    ;
    assert(0x80_0000 * u <= most);
    assert(0x80_0000 * step <= den * most) by (nonlinear_arith)
        requires
            step == den * u,
            0x80_0000 * u <= most,
    ;
    let near = nearest(num, den);
    if 2 * r > step || (2 * r == step && q % 2 == 1) {
        assert(den * near == step * q + step);
    } else {
        assert(den * near == step * q);
    }
}

/// A split sits within a little more than half a pixel of its ratio.
proof fn lemma_offset_close(ratio: Ratio, total: nat)
    requires
        ratio.valid(),
        total <= 0x10_0000,
    ensures
        0x800_0000 * offset_spec(ratio.units as nat, total) - total * ratio.units <= 0x480_0000,
        total * ratio.units - 0x800_0000 * offset_spec(ratio.units as nat, total) <= 0x480_0000,
        total * ratio.units <= total * ONE,
{
    let n = ratio.units as nat;
    power2::lemma2_to64();
    lemma_single_scaled(total, 0);
    assert(total * power2::pow2(0) == total) by (nonlinear_arith)
        requires
            power2::pow2(0) == 1,
    ;
    let x = total * n;
    assert(x <= total * ONE) by (nonlinear_arith)
        requires
            x == total * n,
            n <= ONE,
    ;
    lemma_nearest_error(x, 1, 0x8000_0000_0000);
    lemma_single_scaled(total, 27);
    lemma_single_monotone(x, total * power2::pow2(27));
}

/// A split that is pushed by some pixels moves by as many, give or take one, as long
/// as it does not come to a tenth of the length at either end.
pub proof fn law_push_moves_by_pixels(ratio: Ratio, delta: int, total: nat)
    requires
        ratio.valid(),
        0 < total <= 0x10_0000,
        -total <= delta <= total,
        10 * (offset_spec(ratio.units as nat, total) + delta) >= total + 20,
        10 * (offset_spec(ratio.units as nat, total) + delta) <= 9 * total - 20,
    ensures
        ({
            let before = offset_spec(ratio.units as nat, total);
            let after = offset_spec(pushed_spec(ratio.units as nat, delta, total), total);
            before + delta - 1 <= after <= before + delta + 1
        }),
{
    let n = ratio.units as nat;
    let p = offset_spec(n, total);
    power2::lemma2_to64();
    lemma_offset_close(ratio, total);
    let d = if delta >= 0 {
        delta as nat
    } else {
        (-delta) as nat
    };
    lemma_single_scaled(d, 0);
    lemma_single_scaled(total, 0);
    assert(d * power2::pow2(0) == d && total * power2::pow2(0) == total) by (nonlinear_arith)
        requires
            power2::pow2(0) == 1,
    ;
    let num = d * FINE_ONE as nat;
    assert(num / total <= FINE_ONE) by (nonlinear_arith)
        requires
            num == d * FINE_ONE as nat,
            d <= total,
            total > 0,
    ;
    let shift = shift_spec(d, total);
    lemma_nearest_error(num, total, FINE_ONE as nat);
    let s = if delta >= 0 {
        n * FINE + shift
    } else {
        n * FINE - shift
    };
    let ts = total * s;
    let at = total * n;
    let moved = total * shift;
    assert(ts == (if delta >= 0 {
        at * FINE + moved
    } else {
        at * FINE - moved
    })) by (nonlinear_arith)
        requires
            ts == total * s,
            at == total * n,
            moved == total * shift,
            s == (if delta >= 0 {
                n * FINE + shift
            } else {
                n * FINE - shift
            }),
    ;
    assert(moved - num <= 0x8_0000_0000_0000 && num - moved <= 0x8_0000_0000_0000);
    assert(0x80_0000_0000_0000 * (p + delta) - 0x50_0000_0000_0000 <= ts <= 0x80_0000_0000_0000 * (p
        + delta) + 0x50_0000_0000_0000);
    assert(0 <= s <= FINE_ONE) by (nonlinear_arith)
        requires
            ts == total * s,
            total > 0,
            0 <= ts <= total * 0x80_0000_0000_0000,
    ;
    lemma_nearest_error(s as nat, 1, FINE_ONE as nat);
    let sum = single(s as nat);
    let tsum = total * sum;
    assert(ts - 0x8_0000_0000_0000 <= tsum <= ts + 0x8_0000_0000_0000) by (nonlinear_arith)
        requires
            ts == total * s,
            tsum == total * sum,
            total <= 0x10_0000,
            sum - s <= 0x8000_0000,
            s - sum <= 0x8000_0000,
    ;
    assert(sum >= LEAST * FINE) by (nonlinear_arith)
        requires
            tsum == total * sum,
            total > 0,
            total <= 0x10_0000,
            10 * tsum >= 0x80_0000_0000_0000 * total + 0x2_0000_0000_0000,
    ;
    assert(sum <= MOST * FINE) by (nonlinear_arith)
        requires
            tsum == total * sum,
            total > 0,
            total <= 0x10_0000,
            10 * tsum <= 0x480_0000_0000_0000 * total - 0x20_0000_0000_0000,
    ;
    let units = pushed_spec(n, delta, total);
    lemma_pushed_valid(n, delta, total);
    assert(units == sum / FINE as nat);
    let after = total * units;
    assert(tsum - 0x1_0000_0000_0000 <= after * FINE <= tsum) by (nonlinear_arith)
        requires
            tsum == total * sum,
            after == total * units,
            units * FINE <= sum < units * FINE + FINE,
            total <= 0x10_0000,
    ;
    lemma_offset_close(Ratio { units: units as u32 }, total);
}

} // verus!
