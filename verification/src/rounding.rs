//! Counts in tenths of a unit, rounded as double precision arithmetic rounds them.
//!
//! A double has 53 significant bits. Converting an integer to a double and dividing two doubles
//! both give the nearest double, and writing a double with one decimal gives the nearest tenth;
//! of two that are equally near, each takes the even one.

use vstd::arithmetic::power2::{
    lemma2_to64, lemma2_to64_rest, lemma_pow2_adds, lemma_pow2_pos, lemma_pow2_strictly_increases,
    lemma_pow2_unfold, pow2,
};
use vstd::prelude::*;

verus! {

/// The integer nearest to `a / b`, or the even one of two that are equally near.
pub open spec fn nearest(a: nat, b: nat) -> nat {
    let low = a / b;
    let rest = a % b;
    if 2 * rest < b || (2 * rest == b && low % 2 == 0) {
        low
    } else {
        low + 1
    }
}

/// The position of the highest bit that is set.
pub open spec fn highest_bit(n: nat) -> nat
    decreases n,
{
    if n < 2 {
        0
    } else {
        1 + highest_bit(n / 2)
    }
}

/// The distance between doubles of the size of `n`, where it is a whole number.
pub open spec fn spacing(n: nat) -> nat {
    if highest_bit(n) <= 52 {
        1
    } else {
        pow2((highest_bit(n) - 52) as nat)
    }
}

/// The double nearest to an integer.
pub open spec fn as_double(n: nat) -> nat {
    nearest(n, spacing(n)) * spacing(n)
}

/// How many doubles there are to a step of one, among those with the integer part `whole`.
pub open spec fn doubles_per_one(whole: nat) -> nat {
    pow2((52 - highest_bit(whole)) as nat)
}

/// The tenths of `a / unit`, where `a` is a double: those nearest to the double that is nearest
/// to the quotient.
pub open spec fn quotient_tenths(a: nat, unit: nat) -> nat {
    let grid = doubles_per_one(a / unit);
    nearest(10 * nearest(a * grid, unit), grid)
}

/// The tenths of a unit that are written for a count.
pub open spec fn tenths(n: nat, unit: nat) -> nat {
    quotient_tenths(as_double(n), unit)
}

proof fn lemma_highest_bit(n: nat, bit: nat)
    requires
        n < pow2(bit + 1),
    ensures
        highest_bit(n) <= bit,
    decreases n,
{
    if n >= 2 {
        if bit == 0 {
            lemma2_to64();
        } else {
            lemma_pow2_unfold(bit + 1);
            lemma_highest_bit(n / 2, (bit - 1) as nat);
        }
    }
}

fn nearest_of(a: u128, b: u128) -> (q: u128)
    requires
        0 < b <= 0x1_0000_0000_0000_0000,
        a <= 0x1_0000_0000_0000_0000_0000_0000_0000_00,
    ensures
        q == nearest(a as nat, b as nat),
        q <= a + 1,
{
    let low: u128 = a / b;
    let rest: u128 = a % b;
    assert(low <= a) by (nonlinear_arith)
        requires
            low == a / b,
            b > 0,
    ;
    if 2 * rest < b || (2 * rest == b && low % 2 == 0) {
        low
    } else {
        low + 1
    }
}

/// The position of the highest bit that is set.
fn highest_bit_of(n: u64) -> (bit: u64)
    ensures
        bit == highest_bit(n as nat),
        bit < 64,
    decreases n,
{
    if n < 2 {
        0
    } else {
        let bit: u64 = highest_bit_of(n / 2);
        proof {
            lemma2_to64();
            lemma2_to64_rest();
            lemma_highest_bit(n as nat, 63);
        }
        1 + bit
    }
}

fn pow2_of(e: u64) -> (p: u128)
    requires
        e < 64,
    ensures
        p == pow2(e as nat),
        0 < p <= 0x8000_0000_0000_0000,
    decreases e,
{
    proof {
        lemma2_to64();
        lemma_pow2_pos(e as nat);
    }
    if e == 0 {
        1
    } else {
        let half: u128 = pow2_of(e - 1);
        proof {
            lemma_pow2_unfold(e as nat);
            lemma2_to64_rest();
            lemma_pow2_strictly_increases((e - 1) as nat, 63);
        }
        2 * half
    }
}

/// The nearest integer is at most half a step away.
proof fn lemma_nearest(a: nat, b: nat)
    requires
        b > 0,
    ensures
        -b <= 2 * (nearest(a, b) * b - a) <= b,
{
    let low = a / b;
    assert(a == low * b + a % b) by {
        vstd::arithmetic::div_mod::lemma_fundamental_div_mod(a as int, b as int);
        vstd::arithmetic::mul::lemma_mul_is_commutative(low as int, b as int);
    }
    assert((low + 1) * b == low * b + b) by (nonlinear_arith);
}

/// A double is within half its spacing of the integer that it stands for.
proof fn lemma_as_double(n: nat)
    requires
        n <= u64::MAX,
    ensures
        n < 0x20_0000_0000_0000 ==> as_double(n) == n,
        n - 1024 <= as_double(n) <= n + 1024,
{
    lemma2_to64();
    lemma2_to64_rest();
    lemma_highest_bit(n, 63);
    lemma_pow2_pos(spacing_bits(n));
    if n < 0x20_0000_0000_0000 {
        lemma_highest_bit(n, 52);
    }
    if highest_bit(n) > 52 && highest_bit(n) < 63 {
        lemma_pow2_strictly_increases(spacing_bits(n), 11);
    }
    lemma_nearest(n, spacing(n));
}

spec fn spacing_bits(n: nat) -> nat {
    (highest_bit(n) - 52) as nat
}

/// The highest bit of a quotient by a unit, for the counts that tenths are taken of.
proof fn lemma_whole_units(n: nat, unit: nat)
    requires
        1000 <= unit <= 1_000_000_000,
        n < unit * 0x8_0000_0000,
        n <= u64::MAX,
    ensures
        as_double(n) / unit < 0x10_0000_0000,
        highest_bit(as_double(n) / unit) <= 35,
{
    let a = as_double(n);
    lemma_as_double(n);
    assert(a / unit < 0x10_0000_0000) by (nonlinear_arith)
        requires
            a <= n + 1024,
            n < unit * 0x8_0000_0000,
            1000 <= unit,
    ;
    lemma2_to64_rest();
    lemma_highest_bit(a / unit, 35);
}

/// The tenths of a quotient are at most half a tenth away from it, but for the step between the
/// doubles of its size.
proof fn lemma_quotient_error(a: nat, unit: nat)
    requires
        unit > 0,
    ensures
        ({
            let grid = doubles_per_one(a / unit);
            let error = quotient_tenths(a, unit) * unit - 10 * a;
            -(grid * unit + 10 * unit) <= 2 * (error * grid) <= grid * unit + 10 * unit
        }),
{
    let grid = doubles_per_one(a / unit);
    lemma_pow2_pos((52 - highest_bit(a / unit)) as nat);
    let q = nearest(a * grid, unit);
    let t = nearest(10 * q, grid);
    lemma_nearest(a * grid, unit);
    lemma_nearest(10 * q, grid);
    let error = t * unit - 10 * a;
    let q_error = q * unit - a * grid;
    let t_error = t * grid - 10 * q;
    assert(error * grid == t_error * unit + 10 * q_error) by (nonlinear_arith)
        requires
            error == t * unit - 10 * a,
            q_error == q * unit - a * grid,
            t_error == t * grid - 10 * q,
    ;
    assert(-(grid * unit) <= 2 * (t_error * unit) <= grid * unit) by (nonlinear_arith)
        requires
            -grid <= 2 * t_error <= grid,
            unit > 0,
    ;
}

/// The tenths of a quotient are at most a little over half a tenth away from it.
proof fn lemma_quotient_tenths(a: nat, unit: nat)
    requires
        unit > 0,
        highest_bit(a / unit) <= 35,
    ensures
        -101 * unit <= 200 * (quotient_tenths(a, unit) * unit - 10 * a) <= 101 * unit,
{
    let grid = doubles_per_one(a / unit);
    let bits = (52 - highest_bit(a / unit)) as nat;
    assert(grid >= 0x20000) by {
        lemma2_to64();
        if bits > 17 {
            lemma_pow2_strictly_increases(17, bits);
        }
    }
    let error = quotient_tenths(a, unit) * unit - 10 * a;
    lemma_quotient_error(a, unit);
    assert(-101 * unit <= 200 * error <= 101 * unit) by (nonlinear_arith)
        requires
            -(grid * unit + 10 * unit) <= 2 * (error * grid) <= grid * unit + 10 * unit,
            grid >= 1000,
            unit > 0,
    ;
}

/// The highest bit of a number is the largest power of two that it holds.
proof fn lemma_highest_bit_bounds(n: nat)
    requires
        n > 0,
    ensures
        pow2(highest_bit(n)) <= n < pow2(highest_bit(n) + 1),
    decreases n,
{
    lemma2_to64();
    if n >= 2 {
        lemma_highest_bit_bounds(n / 2);
        lemma_pow2_unfold(highest_bit(n));
        lemma_pow2_unfold(highest_bit(n) + 1);
    }
}

/// The doubles of the size of a quotient are closer than the quotients of neighbouring integers.
proof fn lemma_grid_fine(a: nat, unit: nat)
    requires
        0 < unit <= 1_000_000_000,
        a < 0x20_0000_0000_0000,
    ensures
        unit < 2 * doubles_per_one(a / unit),
{
    let whole = a / unit;
    let bit = highest_bit(whole);
    let grid = doubles_per_one(whole);
    lemma2_to64();
    lemma2_to64_rest();
    assert(whole * unit <= a && whole <= a) by (nonlinear_arith)
        requires
            whole == a / unit,
            0 < unit,
    ;
    if whole > 0 {
        lemma_highest_bit_bounds(whole);
        lemma_highest_bit(whole, 52);
        lemma_pow2_adds(bit, (52 - bit) as nat);
        let low = pow2(bit);
        assert(unit < 2 * grid) by (nonlinear_arith)
            requires
                low * grid == 0x10_0000_0000_0000,
                low <= whole,
                whole * unit <= a,
                a < 0x20_0000_0000_0000,
                low > 0,
                unit > 0,
        ;
    }
}

/// What is written for a count differs from it by at most half a tenth of the unit. Of counts that
/// no double may stand for, it differs by little more.
pub proof fn lemma_tenths_error(n: nat, unit: nat)
    requires
        unit == 1_000 || unit == 1_000_000 || unit == 1_000_000_000,
        n < unit * 0x8_0000_0000,
        n <= u64::MAX,
        n < 0x20_0000_0000_0000 || unit == 1_000_000_000,
    ensures
        n < 0x20_0000_0000_0000 ==> -unit <= 2 * (tenths(n, unit) * unit - 10 * n) <= unit,
        -51 * unit <= 100 * (tenths(n, unit) * unit - 10 * n) <= 51 * unit,
{
    lemma_whole_units(n, unit);
    lemma_quotient_tenths(as_double(n), unit);
    lemma_as_double(n);
    if n < 0x20_0000_0000_0000 {
        let grid = doubles_per_one(n / unit);
        let t = tenths(n, unit);
        let error = t * unit - 10 * n;
        lemma_grid_fine(n, unit);
        lemma_quotient_error(n, unit);
        assert(-unit - 20 < 2 * error < unit + 20) by (nonlinear_arith)
            requires
                -(grid * unit + 10 * unit) <= 2 * (error * grid) <= grid * unit + 10 * unit,
                unit < 2 * grid,
        ;
        // Both the unit and twice the error are multiples of 20.
        let part = unit / 20;
        assert(t * unit == 20 * (t * part)) by (nonlinear_arith)
            requires
                unit == 20 * part,
        ;
    }
}

/// What is larger is not rounded to less.
proof fn lemma_nearest_grows(a: nat, c: nat, b: nat)
    requires
        a <= c,
        b > 0,
    ensures
        nearest(a, b) <= nearest(c, b),
{
    vstd::arithmetic::div_mod::lemma_div_is_ordered(a as int, c as int, b as int);
    vstd::arithmetic::div_mod::lemma_fundamental_div_mod(a as int, b as int);
    vstd::arithmetic::div_mod::lemma_fundamental_div_mod(c as int, b as int);
}

/// A whole number of steps is kept.
proof fn lemma_nearest_whole(k: nat, b: nat)
    requires
        b > 0,
    ensures
        nearest(k * b, b) == k,
{
    vstd::arithmetic::div_mod::lemma_div_multiples_vanish(k as int, b as int);
    vstd::arithmetic::div_mod::lemma_mod_multiples_basic(k as int, b as int);
    vstd::arithmetic::mul::lemma_mul_is_commutative(k as int, b as int);
}

proof fn lemma_highest_bit_grows(n: nat, m: nat)
    requires
        n <= m,
    ensures
        highest_bit(n) <= highest_bit(m),
    decreases m,
{
    if n >= 2 {
        lemma_highest_bit_grows(n / 2, m / 2);
    }
}

proof fn lemma_pow2_grows(a: nat, b: nat)
    requires
        a <= b,
    ensures
        pow2(a) <= pow2(b),
{
    if a < b {
        lemma_pow2_strictly_increases(a, b);
    }
}

/// The double nearest to an integer lies between the same powers of two.
proof fn lemma_as_double_within(n: nat)
    requires
        n > 0,
    ensures
        pow2(highest_bit(n)) <= as_double(n) <= pow2(highest_bit(n) + 1),
{
    let bit = highest_bit(n);
    let step = spacing(n);
    lemma_highest_bit_bounds(n);
    if bit <= 52 {
        lemma_nearest_whole(n, 1);
    } else {
        lemma_pow2_pos((bit - 52) as nat);
        lemma_pow2_adds(52, (bit - 52) as nat);
        lemma_pow2_adds(53, (bit - 52) as nat);
        let low = pow2(52);
        let high = pow2(53);
        lemma_nearest_grows(low * step, n, step);
        lemma_nearest_grows(n, high * step, step);
        lemma_nearest_whole(low, step);
        lemma_nearest_whole(high, step);
        let steps = nearest(n, step);
        assert(low * step <= steps * step <= high * step) by (nonlinear_arith)
            requires
                low <= steps <= high,
        ;
    }
}

proof fn lemma_as_double_grows(n: nat, m: nat)
    requires
        n <= m,
    ensures
        as_double(n) <= as_double(m),
{
    lemma_highest_bit_grows(n, m);
    let step = spacing(n);
    lemma_pow2_pos((highest_bit(n) - 52) as nat);
    if highest_bit(n) == highest_bit(m) {
        lemma_nearest_grows(n, m, step);
        let (low, high) = (nearest(n, step), nearest(m, step));
        assert(low * step <= high * step) by (nonlinear_arith)
            requires
                low <= high,
        ;
    } else if n == 0 {
        lemma_nearest_whole(0, 1);
    } else {
        lemma_as_double_within(n);
        lemma_as_double_within(m);
        lemma_pow2_grows(highest_bit(n) + 1, highest_bit(m));
    }
}

/// The tenths of a quotient lie between the same powers of two as its integer part.
proof fn lemma_quotient_within(a: nat, unit: nat)
    requires
        unit > 0,
    ensures
        quotient_tenths(a, unit) <= 10 * pow2(highest_bit(a / unit) + 1),
        a / unit > 0 ==> 10 * pow2(highest_bit(a / unit)) <= quotient_tenths(a, unit),
{
    let whole = a / unit;
    let grid = doubles_per_one(whole);
    let q = nearest(a * grid, unit);
    let low = pow2(highest_bit(whole));
    let high = pow2(highest_bit(whole) + 1);
    lemma2_to64();
    lemma_pow2_pos((52 - highest_bit(whole)) as nat);
    if whole > 0 {
        lemma_highest_bit_bounds(whole);
    }
    assert(a * grid <= high * grid * unit) by (nonlinear_arith)
        requires
            whole == a / unit,
            whole < high,
            unit > 0,
    ;
    lemma_nearest_grows(a * grid, high * grid * unit, unit);
    lemma_nearest_whole(high * grid, unit);
    assert(10 * q <= 10 * high * grid) by (nonlinear_arith)
        requires
            q <= high * grid,
    ;
    lemma_nearest_grows(10 * q, 10 * high * grid, grid);
    lemma_nearest_whole(10 * high, grid);
    if whole > 0 {
        assert(low * grid * unit <= a * grid) by (nonlinear_arith)
            requires
                whole == a / unit,
                low <= whole,
                unit > 0,
        ;
        lemma_nearest_grows(low * grid * unit, a * grid, unit);
        lemma_nearest_whole(low * grid, unit);
        assert(10 * low * grid <= 10 * q) by (nonlinear_arith)
            requires
                low * grid <= q,
        ;
        lemma_nearest_grows(10 * low * grid, 10 * q, grid);
        lemma_nearest_whole(10 * low, grid);
    }
}

/// For a larger count no fewer tenths of a unit are written.
pub proof fn lemma_tenths_grow(n: nat, m: nat, unit: nat)
    requires
        n <= m,
        unit > 0,
    ensures
        tenths(n, unit) <= tenths(m, unit),
{
    let (a, c) = (as_double(n), as_double(m));
    lemma_as_double_grows(n, m);
    vstd::arithmetic::div_mod::lemma_div_is_ordered(a as int, c as int, unit as int);
    lemma_highest_bit_grows(a / unit, c / unit);
    if highest_bit(a / unit) == highest_bit(c / unit) {
        let grid = doubles_per_one(a / unit);
        lemma_pow2_pos((52 - highest_bit(a / unit)) as nat);
        assert(a * grid <= c * grid) by (nonlinear_arith)
            requires
                a <= c,
        ;
        lemma_nearest_grows(a * grid, c * grid, unit);
        lemma_nearest_grows(10 * nearest(a * grid, unit), 10 * nearest(c * grid, unit), grid);
    } else {
        lemma_quotient_within(a, unit);
        lemma_quotient_within(c, unit);
        lemma_pow2_grows(highest_bit(a / unit) + 1, highest_bit(c / unit));
    }
}

/// The tenths of a unit that are written for a count.
pub fn tenths_of(n: u64, unit: u64) -> (t: u64)
    requires
        1000 <= unit <= 1_000_000_000,
        n < unit * 0x8_0000_0000,
    ensures
        t == tenths(n as nat, unit as nat),
{
    let bit: u64 = highest_bit_of(n);
    let step: u128 = if bit <= 52 {
        1
    } else {
        pow2_of(bit - 52)
    };
    let steps: u128 = nearest_of(n as u128, step);
    proof {
        lemma_as_double(n as nat);
        lemma_whole_units(n as nat, unit as nat);
    }
    let a: u128 = steps * step;
    assert(a == as_double(n as nat));
    let whole: u64 = (a / unit as u128) as u64;
    let bit: u64 = highest_bit_of(whole);
    let grid: u128 = pow2_of(52 - bit);
    proof {
        lemma2_to64_rest();
        if bit > 0 {
            lemma_pow2_strictly_increases((52 - bit) as nat, 52);
        }
    }
    assert(a * grid <= 0x1_0000_0000_0000_1000 * 0x10_0000_0000_0000) by (nonlinear_arith)
        requires
            a <= 0x1_0000_0000_0000_1000,
            grid <= 0x10_0000_0000_0000,
    ;
    let q: u128 = nearest_of(a * grid, unit as u128);
    let t: u128 = nearest_of(10 * q, grid);
    proof {
        lemma_quotient_tenths(a as nat, unit as nat);
        assert(t <= 10 * (a / unit as u128) + 20) by (nonlinear_arith)
            requires
                200 * (t * unit - 10 * a) <= 101 * unit,
                unit > 0,
        ;
    }
    t as u64
}

/// Whether `k` steps of `b` come as close to `a` as any number of steps does, and of two that come
/// equally close are the even one.
pub open spec fn closest(k: nat, a: nat, b: nat) -> bool {
    &&& -b <= 2 * (k * b - a) <= b
    &&& (2 * (k * b - a) == b || 2 * (k * b - a) == -b) ==> k % 2 == 0
}

/// Exactly one number of steps is the closest.
pub proof fn lemma_closest(a: nat, b: nat, k: nat)
    requires
        b > 0,
    ensures
        closest(nearest(a, b), a, b),
        closest(k, a, b) ==> k == nearest(a, b),
{
    let low = a / b;
    lemma_nearest(a, b);
    assert(a == low * b + a % b) by {
        vstd::arithmetic::div_mod::lemma_fundamental_div_mod(a as int, b as int);
        vstd::arithmetic::mul::lemma_mul_is_commutative(low as int, b as int);
    }
    assert((low + 1) * b == low * b + b) by (nonlinear_arith);
    if closest(k, a, b) {
        let steps = k - low;
        assert(k * b == low * b + steps * b) by (nonlinear_arith)
            requires
                k == low + steps,
        ;
        assert(-1 < steps < 2 || (steps == -1 && 2 * (a % b) <= -b) || (steps == 2 && 2 * (a % b)
            >= 3 * b)) by (nonlinear_arith)
            requires
                -b <= 2 * (steps * b - a % b) <= b,
                0 <= a % b < b,
                b > 0,
        ;
        assert(0 * b == 0 && 1 * b == b) by (nonlinear_arith);
    }
}

/// How the tenths that are written for a count come about. The count is taken as the closest number
/// of 53 bits, times a power of two where it has more; the quotient by the unit as the closest
/// number of 53 bits over a power of two; and the tenths as the closest to that.
pub proof fn lemma_rounded_three_times(n: nat, unit: nat) -> (rounded: (nat, nat, nat, nat, nat))
    requires
        1000 <= unit <= 1_000_000_000,
        unit <= n < unit * 0x8_0000_0000,
        n <= u64::MAX,
    ensures
        ({
            let (significand, exponent, count, quotient, shift) = rounded;
            &&& count == significand * pow2(exponent)
            &&& closest(significand, n, pow2(exponent))
            &&& significand <= pow2(53)
            &&& exponent > 0 ==> pow2(52) <= significand
            &&& closest(quotient, count * pow2(shift), unit)
            &&& pow2(52) <= quotient <= pow2(53)
            &&& closest(tenths(n, unit), 10 * quotient, pow2(shift))
        }),
{
    let bit = highest_bit(n);
    let exponent: nat = if bit <= 52 {
        0
    } else {
        (bit - 52) as nat
    };
    let step = spacing(n);
    let significand = nearest(n, step);
    let count = as_double(n);
    lemma2_to64();
    lemma2_to64_rest();
    lemma_pow2_pos(exponent);
    assert(step == pow2(exponent));
    lemma_highest_bit_bounds(n);
    lemma_closest(n, step, 0);
    if bit <= 52 {
        lemma_nearest_whole(n, 1);
        lemma_pow2_grows(bit + 1, 53);
    } else {
        lemma_pow2_adds(52, exponent);
        lemma_pow2_adds(53, exponent);
        lemma_nearest_grows(pow2(52) * step, n, step);
        lemma_nearest_grows(n, pow2(53) * step, step);
        lemma_nearest_whole(pow2(52), step);
        lemma_nearest_whole(pow2(53), step);
    }
    let whole = count / unit;
    lemma_as_double(n);
    assert(count >= unit) by {
        if n >= 0x20_0000_0000_0000 {
            assert(count >= n - 1024);
        }
    }
    assert(whole > 0) by (nonlinear_arith)
        requires
            whole == count / unit,
            count >= unit,
            unit > 0,
    ;
    lemma_whole_units(n, unit);
    lemma_highest_bit_bounds(whole);
    let shift = (52 - highest_bit(whole)) as nat;
    let grid = pow2(shift);
    let low = pow2(highest_bit(whole));
    let high = pow2(highest_bit(whole) + 1);
    lemma_pow2_pos(shift);
    lemma_pow2_adds(highest_bit(whole), shift);
    lemma_pow2_adds(highest_bit(whole) + 1, shift);
    let quotient = nearest(count * grid, unit);
    assert(low * grid * unit <= count * grid <= high * grid * unit) by (nonlinear_arith)
        requires
            whole == count / unit,
            low <= whole < high,
            unit > 0,
            grid > 0,
    ;
    lemma_nearest_grows(low * grid * unit, count * grid, unit);
    lemma_nearest_grows(count * grid, high * grid * unit, unit);
    lemma_nearest_whole(low * grid, unit);
    lemma_nearest_whole(high * grid, unit);
    lemma_closest(count * grid, unit, 0);
    lemma_closest(10 * quotient, grid, 0);
    (significand, exponent, count, quotient, shift)
}

} // verus!
