//! Integers as IEEE 754 single-precision numbers: rounding to the nearest
//! representable number, and bit patterns.

use vstd::prelude::*;

verus! {

/// Power of two.
pub open spec fn two_to(e: nat) -> nat
    decreases e,
{
    if e == 0 {
        1
    } else {
        2 * two_to((e - 1) as nat)
    }
}

/// Distance between neighbouring single-precision numbers at an integer
/// magnitude: 1 while 24 bits hold the number, then a power of two.
pub open spec fn spacing(m: nat) -> nat
    decreases m,
{
    if m < 0x100_0000 {
        1
    } else {
        2 * spacing(m / 2)
    }
}

/// Round a magnitude to the nearest multiple of its spacing, ties to even.
pub open spec fn round_magnitude(m: nat) -> nat {
    let u = spacing(m);
    let q = m / u;
    let r = m % u;
    if 2 * r < u || (2 * r == u && q % 2 == 0) {
        q * u
    } else {
        (q + 1) * u
    }
}

/// Round an integer to single precision.
pub open spec fn round_single(v: int) -> int {
    if v >= 0 {
        round_magnitude(v as nat) as int
    } else {
        -(round_magnitude((-v) as nat) as int)
    }
}

/// Binary exponent of a positive magnitude.
pub open spec fn exponent_of(m: nat) -> nat
    decreases m,
{
    if m < 2 {
        0
    } else {
        1 + exponent_of(m / 2)
    }
}

/// Bit pattern of an integer that single precision represents: sign, biased
/// exponent, and the fraction behind the leading one. Zero is positive.
pub open spec fn single_bits(v: int) -> int {
    if v == 0 {
        0
    } else {
        let m: nat = (if v > 0 { v } else { -v }) as nat;
        let e = exponent_of(m);
        (if v > 0 { 0int } else { 0x8000_0000int }) + (e + 127) * 0x80_0000 + (m * 0x80_0000
            / two_to(e) - 0x80_0000)
    }
}

/// Whether a bit pattern stands for the integer `v`: sign bit, and the
/// significand scaled by the exponent gives the magnitude.
pub open spec fn stands_for(bits: int, v: int) -> bool {
    let sign = bits / 0x8000_0000;
    let e = (bits / 0x80_0000) % 256;
    let fraction = bits % 0x80_0000;
    let m = if v >= 0 { v } else { -v };
    &&& 0 <= bits < 0x1_0000_0000
    &&& if v == 0 {
        bits == 0
    } else {
        &&& sign == (if v < 0 { 1int } else { 0int })
        &&& 127 <= e < 255
        &&& (0x80_0000 + fraction) * two_to((e - 127) as nat) == m * 0x80_0000
    }
}

pub proof fn lemma_two_to_monotone(a: nat, b: nat)
    requires
        a <= b,
    ensures
        two_to(a) <= two_to(b),
        two_to(a) >= 1,
    decreases b - a, a,
{
    if a < b {
        lemma_two_to_monotone(a + 1, b);
    } else if a > 0 {
        lemma_two_to_monotone((a - 1) as nat, (a - 1) as nat);
    }
}

proof fn lemma_exponent(m: nat, e: nat)
    requires
        two_to(e) <= m < 2 * two_to(e),
    ensures
        exponent_of(m) == e,
    decreases e,
{
    lemma_two_to_monotone(0, e);
    if e > 0 {
        lemma_exponent(m / 2, (e - 1) as nat);
    }
}

proof fn lemma_exponent_bounds(m: nat)
    requires
        m >= 1,
    ensures
        two_to(exponent_of(m)) <= m < 2 * two_to(exponent_of(m)),
    decreases m,
{
    if m >= 2 {
        lemma_exponent_bounds(m / 2);
    }
}

proof fn lemma_spacing_positive(m: nat)
    ensures
        spacing(m) >= 1,
        spacing(m) == 1 || spacing(m) <= m,
    decreases m,
{
    if m >= 0x100_0000 {
        lemma_spacing_positive(m / 2);
    }
}

/// Small integers are represented exactly.
pub proof fn small_integers_are_exact(v: int)
    requires
        -0x100_0000 < v < 0x100_0000,
    ensures
        round_single(v) == v,
{
    let m: nat = (if v >= 0 { v } else { -v }) as nat;
    lemma_small_exact(m);
}

proof fn lemma_small_exact(m: nat)
    requires
        m < 0x100_0000,
    ensures
        round_magnitude(m) == m,
{
    assert(spacing(m) == 1);
    assert(m / 1 == m && m % 1 == 0);
}

/// Rounding moves a magnitude by at most half the spacing.
pub proof fn rounding_is_nearest(m: nat)
    ensures
        2 * (round_magnitude(m) - m) <= spacing(m),
        2 * (m - round_magnitude(m)) <= spacing(m),
{
    let u = spacing(m);
    lemma_spacing_positive(m);
    vstd::arithmetic::div_mod::lemma_fundamental_div_mod(m as int, u as int);
    assert((m / u + 1) * u == u * (m / u) + u) by (nonlinear_arith);
    assert((m / u) * u == u * (m / u)) by (nonlinear_arith);
}

/// Whether single precision represents a magnitude.
pub open spec fn representable(m: nat) -> bool {
    m % spacing(m) == 0
}

proof fn lemma_spacing_of_scaled(k: nat, j: nat)
    requires
        0x80_0000 <= k < 0x100_0000,
    ensures
        spacing(k * two_to(j)) == two_to(j),
    decreases j,
{
    if j > 0 {
        let h = two_to((j - 1) as nat);
        lemma_spacing_of_scaled(k, (j - 1) as nat);
        lemma_two_to_monotone(0, (j - 1) as nat);
        assert(k * (2 * h) == 2 * (k * h)) by (nonlinear_arith);
        assert(k * h >= k) by (nonlinear_arith)
            requires
                h >= 1,
                k >= 0,
        ;
    } else {
        assert(k * 1 == k);
    }
}

proof fn lemma_spacing_scale(m: nat) -> (j: nat)
    requires
        m >= 0x100_0000,
    ensures
        spacing(m) == two_to(j),
        j >= 1,
        0x80_0000 <= m / two_to(j) < 0x100_0000,
        exponent_of(m) == j + 23,
    decreases m,
{
    let h = m / 2;
    if h < 0x100_0000 {
        assert(two_to(1) == 2) by {
            reveal_with_fuel(two_to, 2);
        }
        assert(two_to(23) == 0x80_0000) by {
            reveal_with_fuel(two_to, 24);
        }
        lemma_exponent(h, 23);
        assert(spacing(h) == 1);
        1
    } else {
        let i = lemma_spacing_scale(h);
        let p = two_to(i);
        lemma_two_to_monotone(0, i);
        vstd::arithmetic::div_mod::lemma_div_denominator(m as int, 2, p as int);
        assert(two_to(i + 1) == 2 * p);
        i + 1
    }
}

/// What rounding gives is represented.
pub proof fn rounding_is_representable(m: nat)
    ensures
        representable(round_magnitude(m)),
{
    if m < 0x100_0000 {
        lemma_small_exact(m);
        assert(spacing(m) == 1);
        assert(m % 1 == 0);
    } else {
        let j = lemma_spacing_scale(m);
        let u = two_to(j);
        lemma_two_to_monotone(0, j);
        let q = m / u;
        let k: nat = if round_magnitude(m) == q * u {
            q
        } else {
            q + 1
        };
        assert(round_magnitude(m) == k * u);
        if k < 0x100_0000 {
            lemma_spacing_of_scaled(k, j);
            vstd::arithmetic::div_mod::lemma_mod_multiples_basic(k as int, u as int);
        } else {
            assert(k == 0x100_0000);
            lemma_spacing_of_scaled(0x80_0000, j + 1);
            let w = two_to(j + 1);
            assert(k * u == 0x80_0000 * w) by (nonlinear_arith)
                requires
                    k == 0x100_0000,
                    w == 2 * u,
            ;
            vstd::arithmetic::div_mod::lemma_mod_multiples_basic(0x80_0000, w as int);
        }
    }
}

proof fn lemma_two_to_add(a: nat, b: nat)
    ensures
        two_to(a + b) == two_to(a) * two_to(b),
    decreases b,
{
    if b == 0 {
        assert(two_to(a) * 1 == two_to(a));
    } else {
        lemma_two_to_add(a, (b - 1) as nat);
        let x = two_to(a);
        let y = two_to((b - 1) as nat);
        assert(2 * (x * y) == x * (2 * y)) by (nonlinear_arith);
    }
}

/// The scaled magnitude of a represented number is a multiple of its power of
/// two; the quotient is the significand.
proof fn lemma_significand(m: nat) -> (k: nat)
    requires
        m >= 1,
        representable(m),
    ensures
        m * 0x80_0000 == k * two_to(exponent_of(m)),
{
    let e = exponent_of(m);
    let p = two_to(e);
    lemma_exponent_bounds(m);
    assert(two_to(23) == 0x80_0000) by {
        reveal_with_fuel(two_to, 24);
    }
    if m < 0x100_0000 {
        assert(e <= 23) by {
            if e >= 24 {
                lemma_two_to_monotone(24, e);
                reveal_with_fuel(two_to, 25);
            }
        }
        lemma_two_to_add((23 - e) as nat, e);
        let c = two_to((23 - e) as nat);
        assert(m * (c * p) == (m * c) * p) by (nonlinear_arith);
        m * c
    } else {
        let j = lemma_spacing_scale(m);
        let u = two_to(j);
        let q = m / u;
        lemma_two_to_monotone(0, j);
        vstd::arithmetic::div_mod::lemma_fundamental_div_mod(m as int, u as int);
        lemma_two_to_add(23, j);
        assert(m * 0x80_0000 == q * p) by (nonlinear_arith)
            requires
                m == u * q + 0,
                p == 0x80_0000 * u,
        ;
        q
    }
}

proof fn lemma_fields(sign: int, e: int, f: int)
    requires
        0 <= sign <= 1,
        0 <= e < 256,
        0 <= f < 0x80_0000,
    ensures
        ({
            let bits = sign * 0x8000_0000 + e * 0x80_0000 + f;
            &&& 0 <= bits < 0x1_0000_0000
            &&& bits / 0x8000_0000 == sign
            &&& (bits / 0x80_0000) % 256 == e
            &&& bits % 0x80_0000 == f
        }),
{
}

/// The bit pattern of a represented integer stands for that integer.
pub proof fn bits_stand_for_value(v: int)
    requires
        -0x4_0000_0000_0000 < v < 0x4_0000_0000_0000,
        representable((if v >= 0 { v } else { -v }) as nat),
    ensures
        stands_for(single_bits(v), v),
{
    if v != 0 {
        let m: nat = (if v > 0 { v } else { -v }) as nat;
        let e = exponent_of(m);
        let p = two_to(e);
        let k = lemma_significand(m);
        lemma_exponent_bounds(m);
        lemma_two_to_monotone(0, e);
        assert(e < 50) by {
            assert(two_to(50) == 0x4_0000_0000_0000) by {
                reveal_with_fuel(two_to, 51);
            }
            if e >= 50 {
                lemma_two_to_monotone(50, e);
            }
        }
        vstd::arithmetic::div_mod::lemma_div_multiples_vanish(k as int, p as int);
        assert(k * p == p * k) by (nonlinear_arith);
        assert(0x80_0000 <= k < 0x100_0000) by (nonlinear_arith)
            requires
                m * 0x80_0000 == k * p,
                p <= m < 2 * p,
                p >= 1,
        ;
        lemma_fields(if v > 0 { 0 } else { 1 }, (e + 127) as int, k - 0x80_0000);
    }
}

/// Spacing of a magnitude.
fn spacing_of(m: u64) -> (u: u64)
    requires
        m < 0x100_0000_0000_0000,
    ensures
        u == spacing(m as nat),
        u >= 1,
        u == 1 || u <= m,
{
    let mut u: u64 = 1;
    let mut t: u64 = m;
    while t >= 0x100_0000
        invariant
            m < 0x100_0000_0000_0000,
            u >= 1,
            u * t <= m,
            spacing(m as nat) == u * spacing(t as nat),
        decreases t,
    {
        let ghost s = spacing((t / 2) as nat);
        let h: u64 = t / 2;
        proof {
            assert(u * (2 * s) == (2 * u) * s) by (nonlinear_arith);
            assert((2 * u) * h <= u * t) by (nonlinear_arith)
                requires
                    2 * h <= t,
            ;
            assert(u <= u * t) by (nonlinear_arith)
                requires
                    t >= 1,
            ;
        }
        t = h;
        u = u * 2;
    }
    proof {
        lemma_spacing_positive(m as nat);
        assert(u * 1 == u) by (nonlinear_arith);
    }
    u
}

/// Round a magnitude to single precision.
fn round_up_or_down(m: u64) -> (r: u64)
    requires
        m < 0x100_0000_0000_0000,
    ensures
        r == round_magnitude(m as nat),
        r <= 2 * m,
{
    let u: u64 = spacing_of(m);
    let q: u64 = m / u;
    let r: u64 = m % u;
    proof {
        vstd::arithmetic::div_mod::lemma_fundamental_div_mod(m as int, u as int);
        assert(u * q == q * u) by (nonlinear_arith);
        assert((q + 1) * u == q * u + u) by (nonlinear_arith);
        vstd::arithmetic::div_mod::lemma_mod_bound(m as int, u as int);
        vstd::arithmetic::div_mod::lemma_div_pos_is_pos(m as int, u as int);
        vstd::arithmetic::mul::lemma_mul_nonnegative(q as int, u as int);
        assert(q <= q * u) by (nonlinear_arith)
            requires
                u >= 1,
                q >= 0,
        ;
    }
    if 2 * r < u || (2 * r == u && q % 2 == 0) {
        q * u
    } else {
        (q + 1) * u
    }
}

/// Round an integer to single precision.
pub fn round_to_single(v: i64) -> (r: i64)
    requires
        -0x100_0000_0000_0000 < v < 0x100_0000_0000_0000,
    ensures
        r == round_single(v as int),
        v >= 0 ==> 0 <= r <= 2 * v,
        v <= 0 ==> 2 * v <= r <= 0,
{
    if v >= 0 {
        round_up_or_down(v as u64) as i64
    } else {
        -(round_up_or_down((-v) as u64) as i64)
    }
}

/// Bit pattern of an integer that single precision represents.
pub fn bits_of_single(v: i64) -> (b: u32)
    requires
        -0x4_0000_0000_0000 < v < 0x4_0000_0000_0000,
    ensures
        b == single_bits(v as int),
{
    if v == 0 {
        return 0;
    }
    let m: u64 = if v > 0 { v as u64 } else { (-v) as u64 };
    let mut p: u64 = 1;
    let mut e: u64 = 0;
    while p * 2 <= m
        invariant
            1 <= m < 0x4_0000_0000_0000,
            e <= 50,
            p == two_to(e as nat),
            p <= m,
            e <= p,
        decreases m - p,
    {
        proof {
            if e >= 50 {
                lemma_two_to_monotone(50, e as nat);
                reveal_with_fuel(two_to, 51);
            }
        }
        p = p * 2;
        e = e + 1;
    }
    proof {
        lemma_exponent(m as nat, e as nat);
        vstd::arithmetic::div_mod::lemma_div_is_ordered(p * 0x80_0000, m * 0x80_0000, p as int);
        vstd::arithmetic::div_mod::lemma_div_multiples_vanish(0x80_0000, p as int);
        assert(m * 0x80_0000 < 0x100_0000 * p);
        vstd::arithmetic::div_mod::lemma_multiply_divide_lt(
            m * 0x80_0000,
            p as int,
            0x100_0000,
        );
    }
    let fraction: u64 = (m as u128 * 0x80_0000 / p as u128 - 0x80_0000) as u64;
    let sign: u64 = if v > 0 { 0 } else { 0x8000_0000 };
    (sign + (e + 127) * 0x80_0000 + fraction) as u32
}

/// Halfway between two neighbours, rounding takes the one with an even number of
/// spacings.
pub proof fn ties_go_to_even(m: nat)
    requires
        2 * (m % spacing(m)) == spacing(m),
    ensures
        exists|k: nat| #[trigger] (2 * k * spacing(m)) == round_magnitude(m),
{
    let u = spacing(m);
    let q = m / u;
    lemma_spacing_positive(m);
    vstd::arithmetic::div_mod::lemma_div_pos_is_pos(m as int, u as int);
    if q % 2 == 0 {
        let k = (q / 2) as nat;
        assert(2 * k == q);
        assert(2 * k * u == round_magnitude(m));
    } else {
        let k = ((q + 1) / 2) as nat;
        assert(2 * k == q + 1);
        assert(2 * k * u == round_magnitude(m));
    }
}

/// Rounding a negative number is rounding its magnitude.
pub proof fn rounding_is_symmetric(v: int)
    ensures
        round_single(-v) == -round_single(v),
{
    lemma_small_exact(0);
}

/// Numbers of 25 bits are rounded to even ones: the nearest, and halfway the multiple
/// of four.
pub proof fn just_past_exactness(m: nat)
    requires
        0x100_0000 <= m < 0x200_0000,
    ensures
        m % 2 == 0 ==> round_single(m as int) == m,
        m % 4 == 1 ==> round_single(m as int) == m - 1,
        m % 4 == 3 ==> round_single(m as int) == m + 1,
{
    reveal_with_fuel(spacing, 2);
    assert(spacing(m) == 2);
}

} // verus!
