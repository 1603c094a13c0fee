//! The arithmetic of IEEE 754 double precision on whole numbers: what a product
//! or a sum becomes when only 53 significant bits of it are kept, and what the bits
//! of a number stand for.
use vstd::arithmetic::div_mod::*;
use vstd::arithmetic::mul::*;
use vstd::arithmetic::power2::*;
use vstd::prelude::*;

verus! {

/// Two to the power of the significand's width.
pub const SIGNIFICAND: u128 = 0x20_0000_0000_0000;

/// How many of the lowest bits of `x` do not fit into a significand.
pub open spec fn excess_bits(x: nat) -> nat
    decreases x,
{
    if x < SIGNIFICAND {
        0
    } else {
        1 + excess_bits(x / 2)
    }
}

/// The multiple of `unit` nearest to `x`; of two that are equally near, the even
/// one.
pub open spec fn nearest_multiple(x: nat, unit: nat) -> nat {
    let q = x / unit;
    let r = x % unit;
    if 2 * r < unit || (2 * r == unit && q % 2 == 0) {
        q * unit
    } else {
        (q + 1) * unit
    }
}

/// The double-precision number nearest to `x`.
pub open spec fn round53(x: nat) -> nat {
    nearest_multiple(x, pow2(excess_bits(x)))
}

pub proof fn lemma_excess_bits(x: nat)
    ensures
        x < SIGNIFICAND * pow2(excess_bits(x)),
        excess_bits(x) > 0 ==> x >= (SIGNIFICAND / 2) * pow2(excess_bits(x)),
        pow2(excess_bits(x)) > 0,
    decreases x,
{
    lemma_pow2_pos(excess_bits(x));
    if x < SIGNIFICAND {
        lemma2_to64();
    } else {
        lemma_excess_bits(x / 2);
        let k = excess_bits(x / 2);
        lemma_pow2_unfold(excess_bits(x));
        let u = pow2(k);
        assert(pow2(excess_bits(x)) == 2 * u);
        assert(SIGNIFICAND / 2 == 0x10_0000_0000_0000);
        if k == 0 {
            lemma2_to64();
        }
    }
}

proof fn lemma_nearest_multiple(x: nat, unit: nat)
    requires
        unit > 0,
    ensures
        x < nearest_multiple(x, unit) + unit,
        nearest_multiple(x, unit) < x + unit,
        exists|k: nat| nearest_multiple(x, unit) == #[trigger] (k * unit),
{
    let q = x / unit;
    lemma_fundamental_div_mod(x as int, unit as int);
    assert(x == unit * q + x % unit);
    assert((q + 1) * unit == q * unit + unit) by (nonlinear_arith);
    assert(unit * q == q * unit) by (nonlinear_arith);
    let k1 = (q + 1) as nat;
    assert(nearest_multiple(x, unit) == q * unit || nearest_multiple(x, unit) == k1 * unit);
}

/// What fits into a significand is kept as it is.
pub proof fn lemma_round53_small(x: nat)
    requires
        x < SIGNIFICAND,
    ensures
        round53(x) == x,
{
    lemma2_to64();
    assert(pow2(0) == 1);
    assert(x / 1 == x && x % 1 == 0) by (nonlinear_arith);
}

/// Rounding at most doubles a number.
pub proof fn lemma_round53_bound(x: nat)
    ensures
        round53(x) <= 2 * x,
{
    lemma_excess_bits(x);
    let unit = pow2(excess_bits(x));
    if excess_bits(x) == 0 {
        lemma_round53_small(x);
    } else {
        lemma_nearest_multiple(x, unit);
        assert((SIGNIFICAND / 2) * unit >= unit) by (nonlinear_arith)
            requires
                unit > 0,
        ;
    }
}

proof fn lemma_excess_bits_monotone(x: nat, y: nat)
    requires
        x <= y,
    ensures
        excess_bits(x) <= excess_bits(y),
    decreases y,
{
    if x >= SIGNIFICAND {
        lemma_excess_bits_monotone(x / 2, y / 2);
    }
}

/// Rounding keeps the order.
pub proof fn lemma_round53_monotone(x: nat, y: nat)
    requires
        x <= y,
    ensures
        round53(x) <= round53(y),
{
    lemma_excess_bits_monotone(x, y);
    lemma_excess_bits(x);
    lemma_excess_bits(y);
    let ux = pow2(excess_bits(x));
    let uy = pow2(excess_bits(y));
    let qx = x / ux;
    let qy = y / uy;
    lemma_fundamental_div_mod(x as int, ux as int);
    lemma_fundamental_div_mod(y as int, uy as int);
    lemma_mod_bound(x as int, ux as int);
    lemma_mod_bound(y as int, uy as int);
    assert((qx + 1) * ux == qx * ux + ux) by (nonlinear_arith);
    assert((qy + 1) * uy == qy * uy + uy) by (nonlinear_arith);
    assert(ux * qx == qx * ux) by (nonlinear_arith);
    assert(uy * qy == qy * uy) by (nonlinear_arith);
    if excess_bits(x) == excess_bits(y) {
        lemma_div_is_ordered(x as int, y as int, ux as int);
        if qx < qy {
            assert((qx + 1) * ux <= qy * ux) by (nonlinear_arith)
                requires
                    qx + 1 <= qy,
            ;
        }
    } else {
        let top: nat = 0x20_0000_0000_0000;
        assert(qx + 1 <= top) by (nonlinear_arith)
            requires
                x < top * ux,
                x == qx * ux + x % ux,
                x % ux >= 0,
                ux > 0,
        ;
        assert((qx + 1) * ux <= top * ux) by (nonlinear_arith)
            requires
                qx + 1 <= top,
        ;
        let half: nat = 0x10_0000_0000_0000;
        assert(SIGNIFICAND / 2 == half);
        assert(qy >= half) by (nonlinear_arith)
            requires
                y >= half * uy,
                y == qy * uy + y % uy,
                y % uy < uy,
                uy > 0,
        ;
        assert(qy * uy >= half * uy) by (nonlinear_arith)
            requires
                qy >= half,
        ;
        lemma_pow2_unfold(excess_bits(y));
        let below = (excess_bits(y) - 1) as nat;
        if excess_bits(x) < below {
            lemma_pow2_strictly_increases(excess_bits(x), below);
        }
        assert(uy >= 2 * ux);
    }
}

/// A number with at most 53 significant bits is kept as it is.
pub proof fn lemma_round53_exact(a: nat, k: nat)
    requires
        a <= SIGNIFICAND,
    ensures
        round53(a * pow2(k)) == a * pow2(k),
{
    let x = a * pow2(k);
    let e = excess_bits(x);
    let u = pow2(e);
    lemma_excess_bits(x);
    lemma_pow2_pos(k);
    let m: nat = if e <= k {
        a * pow2((k - e) as nat)
    } else {
        0x10_0000_0000_0000
    };
    assert(x == m * u) by {
        if e <= k {
            lemma_pow2_adds(e, (k - e) as nat);
            let v = pow2((k - e) as nat);
            assert(a * (u * v) == (a * v) * u) by (nonlinear_arith);
        } else {
            lemma_pow2_unfold(e);
            let below = (e - 1) as nat;
            let w = pow2(k);
            if k < below {
                lemma_pow2_strictly_increases(k, below);
                assert(pow2(below) > w);
            }
            assert(a * w <= 0x20_0000_0000_0000 * w) by (nonlinear_arith)
                requires
                    a <= 0x20_0000_0000_0000,
            ;
            assert(SIGNIFICAND / 2 == 0x10_0000_0000_0000);
            assert(x >= 0x10_0000_0000_0000 * (2 * pow2(below)));
            assert(pow2(below) == w);
        }
    }
    lemma_mod_multiples_basic(m as int, u as int);
    lemma_div_by_multiple(m as int, u as int);
}

/// What is left of a number has at most 53 significant bits.
pub proof fn lemma_round53_form(x: nat)
    ensures
        exists|a: nat, k: nat|
            a <= SIGNIFICAND && round53(x) == #[trigger] (a * pow2(k)),
        round53(round53(x)) == round53(x),
{
    lemma_excess_bits(x);
    let k = excess_bits(x);
    let u = pow2(k);
    let q = x / u;
    lemma_fundamental_div_mod(x as int, u as int);
    assert(u * q == q * u) by (nonlinear_arith);
    assert(q < 0x20_0000_0000_0000) by (nonlinear_arith)
        requires
            q * u <= x,
            x < 0x20_0000_0000_0000 * u,
    ;
    let up = (q + 1) as nat;
    if round53(x) == q * u {
        lemma_round53_exact(q, k);
        assert(round53(x) == q * pow2(k));
    } else {
        lemma_round53_exact(up, k);
        assert(round53(x) == up * pow2(k));
    }
}

/// Rounding does not depend on the scale.
pub proof fn lemma_round53_scale(x: nat, d: nat)
    ensures
        round53(x * pow2(d)) == round53(x) * pow2(d),
    decreases d,
{
    if d == 0 {
        lemma2_to64();
        assert(x * 1 == x && round53(x) * 1 == round53(x));
    } else {
        let below = (d - 1) as nat;
        lemma_round53_scale(x, below);
        lemma_pow2_unfold(d);
        let w = pow2(below);
        assert(x * (2 * w) == 2 * (x * w)) by (nonlinear_arith);
        let r = round53(x);
        assert(r * (2 * w) == 2 * (r * w)) by (nonlinear_arith);
        lemma_round53_double(x * w);
    }
}

proof fn lemma_round53_double(x: nat)
    ensures
        round53(2 * x) == 2 * round53(x),
{
    let s: nat = 0x20_0000_0000_0000;
    if 2 * x < s {
        lemma_round53_small(x);
        lemma_round53_small(2 * x);
    } else {
        assert((2 * x) / 2 == x);
        let k = excess_bits(x);
        let u = pow2(k);
        lemma_excess_bits(x);
        lemma_pow2_unfold(k + 1);
        assert(excess_bits(2 * x) == k + 1);
        let q = x / u;
        let r = x % u;
        lemma_fundamental_div_mod(x as int, u as int);
        lemma_mod_bound(x as int, u as int);
        assert(2 * x == q * (2 * u) + 2 * r) by (nonlinear_arith)
            requires
                x == u * q + r,
        ;
        lemma_fundamental_div_mod_converse(
            (2 * x) as int,
            (2 * u) as int,
            q as int,
            (2 * r) as int,
        );
        assert(q * (2 * u) == 2 * (q * u)) by (nonlinear_arith);
        assert((q + 1) * (2 * u) == 2 * ((q + 1) * u)) by (nonlinear_arith);
    }
}

/// Keeps 53 significant bits of a number.
pub fn keep53(x: u128) -> (r: u128)
    requires
        x < 0x4000_0000_0000_0000_0000_0000_0000_0000,
    ensures
        r == round53(x as nat),
{
    let mut unit: u128 = 1;
    let mut y: u128 = x;
    let ghost mut k: nat = 0;
    proof {
        lemma2_to64();
    }
    while y >= SIGNIFICAND
        invariant
            unit == pow2(k),
            k + excess_bits(y as nat) == excess_bits(x as nat),
            unit * y <= x,
            unit >= 1,
        decreases y,
    {
        proof {
            lemma_pow2_unfold(k + 1);
            assert(2 * unit * (y / 2) <= unit * y) by (nonlinear_arith);
            assert(2 * unit <= unit * y) by (nonlinear_arith)
                requires
                    y >= 2,
            ;
            k = k + 1;
        }
        unit = 2 * unit;
        y = y / 2;
    }
    let q: u128 = x / unit;
    let r: u128 = x % unit;
    proof {
        lemma_round53_bound(x as nat);
        lemma_fundamental_div_mod(x as int, unit as int);
        assert(unit * q == q * unit) by (nonlinear_arith);
        assert((q + 1) * unit == q * unit + unit) by (nonlinear_arith);
        assert(unit * q >= 0) by (nonlinear_arith);
        lemma_mod_bound(x as int, unit as int);
        assert(unit <= x || unit == 1) by {
            if k > 0 {
                lemma_excess_bits(x as nat);
                assert((SIGNIFICAND / 2) * unit >= unit) by (nonlinear_arith)
                    requires
                        unit > 0,
                ;
            }
        }
    }
    if 2 * r < unit || (2 * r == unit && q % 2 == 0) {
        q * unit
    } else {
        (q + 1) * unit
    }
}

// ---------------------------------------------------------------------------
// Numbers by their bits
// ---------------------------------------------------------------------------

/// How many bits stand behind the binary point of the smallest number: every number
/// is a multiple of 2 to the power of minus this.
pub const FINEST: u64 = 1074;

/// The bits of one.
pub const ONE_BITS: u64 = 0x3ff0_0000_0000_0000;

/// The bits of infinity. The bits of what is no number, and of what is negative, are
/// larger.
pub const INFINITY_BITS: u64 = 0x7ff0_0000_0000_0000;

/// The significand of a number that is not negative.
pub open spec fn significand(bits: u64) -> nat {
    if bits < 0x10_0000_0000_0000 {
        bits as nat
    } else {
        (bits % 0x10_0000_0000_0000 + 0x10_0000_0000_0000) as nat
    }
}

/// How many of the significand's bits stand behind the binary point.
pub open spec fn point(bits: u64) -> nat {
    if bits < 0x10_0000_0000_0000 {
        1074
    } else {
        (1075 - bits / 0x10_0000_0000_0000) as nat
    }
}

/// One, as a multiple of the smallest number.
pub open spec fn one() -> nat {
    pow2(FINEST as nat)
}

/// A number between zero and one, as a multiple of the smallest number.
pub open spec fn fraction(bits: u64) -> nat {
    significand(bits) * pow2((FINEST - point(bits)) as nat)
}

/// The significand, and how many of its bits stand behind the binary point.
pub fn significand_and_point(bits: u64) -> (r: (u64, u64))
    requires
        bits < 0x4340_0000_0000_0000,
    ensures
        r.0 == significand(bits),
        r.1 == point(bits),
{
    let unit: u64 = 0x10_0000_0000_0000;
    if bits < unit {
        (bits, FINEST)
    } else {
        assert(bits / unit <= 0x433) by (nonlinear_arith)
            requires
                bits < 0x4340_0000_0000_0000,
                unit == 0x10_0000_0000_0000u64,
        ;
        (bits % unit + unit, 1075 - bits / unit)
    }
}

pub proof fn lemma_fraction(bits: u64)
    requires
        bits <= ONE_BITS,
    ensures
        52 <= point(bits) <= FINEST,
        significand(bits) < SIGNIFICAND,
        significand(bits) <= pow2(point(bits)),
        fraction(bits) <= one(),
        bits == 0 ==> fraction(bits) == 0,
        bits == ONE_BITS ==> fraction(bits) == one(),
{
    let unit: u64 = 0x10_0000_0000_0000;
    let e = bits / unit;
    assert(e <= 0x3ff && bits == e * unit + bits % unit) by (nonlinear_arith)
        requires
            bits <= 0x3ff0_0000_0000_0000,
            unit == 0x10_0000_0000_0000u64,
            e == bits / unit,
    ;
    let k = point(bits);
    lemma2_to64();
    lemma2_to64_rest();
    if k > 53 {
        lemma_pow2_strictly_increases(53, k);
    }
    let m = significand(bits);
    let z = pow2((FINEST - k) as nat);
    lemma_pow2_adds(k, (FINEST - k) as nat);
    assert(m * z <= pow2(k) * z) by (nonlinear_arith)
        requires
            m <= pow2(k),
    ;
    if bits == 0 {
        assert(0 * z == 0);
    }
}

/// The bits of numbers that are not negative are ordered as the numbers are.
pub proof fn lemma_fraction_monotone(p: u64, q: u64)
    requires
        p <= q <= ONE_BITS,
    ensures
        fraction(p) <= fraction(q),
{
    let unit: u64 = 0x10_0000_0000_0000;
    lemma_fraction(p);
    lemma_fraction(q);
    let a = significand(p);
    let b = significand(q);
    let y = (FINEST - point(p)) as nat;
    let z = (FINEST - point(q)) as nat;
    assert(p / unit <= q / unit && (p / unit == q / unit ==> p % unit <= q % unit))
        by (nonlinear_arith)
        requires
            p <= q,
            unit == 0x10_0000_0000_0000u64,
    ;
    lemma_pow2_pos(y);
    lemma_pow2_pos(z);
    let u = pow2(y);
    let w = pow2(z);
    if y == z {
        assert(a * u <= b * u) by (nonlinear_arith)
            requires
                a <= b,
        ;
    } else {
        assert(y < z);
        lemma_pow2_unfold(z);
        if y + 1 < z {
            lemma_pow2_strictly_increases(y, (z - 1) as nat);
        }
        assert(a * u <= b * w) by (nonlinear_arith)
            requires
                a <= 2 * b,
                2 * u <= w,
        ;
    }
}

/// Two to the power of `e`.
pub fn power_of_two(e: u64) -> (r: u128)
    requires
        e <= 64,
    ensures
        r == pow2(e as nat),
{
    proof {
        lemma2_to64();
    }
    let mut r: u128 = 1;
    let mut i: u64 = 0;
    while i < e
        invariant
            i <= e <= 64,
            r == pow2(i as nat),
            r <= 0x1_0000_0000_0000_0000,
        decreases e - i,
    {
        proof {
            lemma_pow2_unfold((i + 1) as nat);
            lemma2_to64();
            if i + 1 < 64 {
                lemma_pow2_strictly_increases((i + 1) as nat, 64);
            }
        }
        r = r * 2;
        i = i + 1;
    }
    r
}

/// What is left of a number that has 53 significant bits after it was halved, and how
/// often it was.
pub fn halved53(x: u128) -> (r: (u128, u64))
    requires
        x < 0x4000_0000_0000_0000_0000_0000_0000_0000,
        round53(x as nat) == x,
    ensures
        x == r.0 * pow2(r.1 as nat),
        r.0 < SIGNIFICAND,
        r.1 <= 126,
{
    let mut g: u128 = x;
    let mut times: u64 = 0;
    proof {
        lemma2_to64();
    }
    while g >= SIGNIFICAND
        invariant
            x == g * pow2(times as nat),
            x < 0x4000_0000_0000_0000_0000_0000_0000_0000,
            times + excess_bits(g as nat) == excess_bits(x as nat),
            round53(x as nat) == x,
            times <= 126,
        decreases g,
    {
        proof {
            lemma_halving(x as nat, g as nat, times as nat);
            lemma_pow2_unfold((times + 1) as nat);
            let half = (g / 2) as nat;
            let u = pow2(times as nat);
            assert(g == 2 * half);
            assert((2 * half) * u == half * (2 * u)) by (nonlinear_arith);
            lemma_halvings(x as nat, half, (times + 1) as nat);
        }
        g = g / 2;
        times = times + 1;
    }
    (g, times)
}

proof fn lemma_halving(x: nat, g: nat, d: nat)
    requires
        x == g * pow2(d),
        round53(x) == x,
        d + excess_bits(g) == excess_bits(x),
        g >= SIGNIFICAND,
    ensures
        g % 2 == 0,
{
    let e = excess_bits(x);
    let u = pow2(e);
    lemma_excess_bits(x);
    lemma_round53_form(x);
    let below = (e - d - 1) as nat;
    lemma_pow2_adds(d, (e - d) as nat);
    lemma_pow2_unfold((e - d) as nat);
    lemma_fundamental_div_mod(x as int, u as int);
    let q = x / u;
    assert(x == q * u || x == (q + 1) * u) by {
        assert((q + 1) * u == q * u + u) by (nonlinear_arith);
    }
    let m: nat = if x == q * u {
        q
    } else {
        (q + 1) as nat
    };
    let v = pow2(below);
    let w = pow2(d);
    lemma_pow2_pos(d);
    assert(m * (w * (2 * v)) == (2 * (m * v)) * w) by (nonlinear_arith);
    assert(g * w == (2 * (m * v)) * w);
    assert(g == 2 * (m * v)) by (nonlinear_arith)
        requires
            g * w == (2 * (m * v)) * w,
            w > 0,
    ;
}

proof fn lemma_halvings(x: nat, g: nat, d: nat)
    requires
        x == g * pow2(d),
        g > 0,
        x < 0x4000_0000_0000_0000_0000_0000_0000_0000,
    ensures
        d <= 126,
{
    if d > 126 {
        lemma_pow2_strictly_increases(126, d);
        lemma2_to64();
        lemma2_to64_rest();
        lemma_pow2_adds(64, 62);
        let u = pow2(d);
        assert(g * u >= u) by (nonlinear_arith)
            requires
                g >= 1,
        ;
    }
}

/// A number that does not fit into a significand is rounded to a multiple of its unit
/// that has all 53 bits and lies less than one unit away.
pub proof fn lemma_round53_large(x: nat) -> (a: nat)
    requires
        x >= SIGNIFICAND,
    ensures
        SIGNIFICAND / 2 <= a <= SIGNIFICAND,
        round53(x) == a * pow2(excess_bits(x)),
        round53(x) < x + pow2(excess_bits(x)),
{
    let u = pow2(excess_bits(x));
    lemma_excess_bits(x);
    lemma_nearest_multiple(x, u);
    let q = x / u;
    lemma_fundamental_div_mod(x as int, u as int);
    lemma_mod_bound(x as int, u as int);
    assert(u * q == q * u) by (nonlinear_arith);
    assert(0x10_0000_0000_0000 <= q < 0x20_0000_0000_0000) by (nonlinear_arith)
        requires
            x == q * u + x % u,
            0 <= x % u < u,
            x >= 0x10_0000_0000_0000 * u,
            x < 0x20_0000_0000_0000 * u,
            u > 0,
    ;
    if round53(x) == q * u {
        q
    } else {
        (q + 1) as nat
    }
}

proof fn lemma_excess_bits_scaled(a: nat, h: nat, low: nat)
    requires
        a >= SIGNIFICAND,
        low < pow2(h),
    ensures
        excess_bits(a * pow2(h) + low) == excess_bits(a) + h,
    decreases h,
{
    let x = a * pow2(h) + low;
    if h == 0 {
        lemma2_to64();
        assert(a * 1 == a);
    } else {
        let below = (h - 1) as nat;
        lemma_pow2_unfold(h);
        lemma_pow2_pos(below);
        let w = pow2(below);
        assert(a * (2 * w) == 2 * (a * w)) by (nonlinear_arith);
        assert(x / 2 == a * w + low / 2);
        lemma_excess_bits_scaled(a, below, low / 2);
        assert(a * w >= a) by (nonlinear_arith)
            requires
                w >= 1,
        ;
    }
}

/// Of what lies far below a number, rounding sees only that it is there.
pub proof fn lemma_round53_sticky(a: nat, h: nat, low: nat)
    requires
        a >= SIGNIFICAND,
        0 < low < pow2(h),
    ensures
        h > 0,
        round53(a * pow2(h) + low) == round53(2 * a + 1) * pow2((h - 1) as nat),
{
    lemma2_to64();
    assert(h > 0);
    let below = (h - 1) as nat;
    let half = pow2(below);
    lemma_pow2_unfold(h);
    lemma_pow2_pos(below);
    lemma_nearest_far(a, h, low);
    lemma_nearest_far(a, h, half);
    let w = pow2(h);
    assert(a * (2 * half) + half == (2 * a + 1) * half) by (nonlinear_arith);
    lemma_round53_scale(2 * a + 1, below);
}

proof fn lemma_nearest_far(a: nat, h: nat, low: nat)
    requires
        a >= SIGNIFICAND,
        0 < low < pow2(h),
    ensures
        ({
            let e = excess_bits(a);
            let u = pow2(e);
            round53(a * pow2(h) + low) == (if 2 * (a % u) < u {
                a / u
            } else {
                a / u + 1
            }) * (u * pow2(h))
        }),
{
    let e = excess_bits(a);
    let u = pow2(e);
    let w = pow2(h);
    let x = a * w + low;
    lemma_excess_bits(a);
    lemma_excess_bits_scaled(a, h, low);
    lemma_pow2_adds(e, h);
    lemma_pow2_unfold(e);
    lemma_pow2_pos(h);
    let q = a / u;
    let r = a % u;
    lemma_fundamental_div_mod(a as int, u as int);
    lemma_mod_bound(a as int, u as int);
    assert(x == q * (u * w) + (r * w + low)) by (nonlinear_arith)
        requires
            x == a * w + low,
            a == u * q + r,
    ;
    assert(r * w + low < u * w) by (nonlinear_arith)
        requires
            r + 1 <= u,
            low < w,
    ;
    assert(r * w >= 0) by (nonlinear_arith);
    lemma_fundamental_div_mod_converse(
        x as int,
        (u * w) as int,
        q as int,
        (r * w + low) as int,
    );
    let half = pow2((e - 1) as nat);
    if 2 * r < u {
        assert(2 * (r * w + low) < u * w) by (nonlinear_arith)
            requires
                r + 1 <= half,
                u == 2 * half,
                low < w,
        ;
    } else {
        assert(2 * (r * w + low) > u * w) by (nonlinear_arith)
            requires
                2 * r >= u,
                low > 0,
        ;
    }
}

/// Rounding moves a number by no more than one part in 2^52 of it.
pub proof fn law_round53_near(x: nat)
    ensures
        0x10_0000_0000_0000 * (round53(x) - x) <= x,
        0x10_0000_0000_0000 * (x - round53(x)) <= x,
{
    lemma_excess_bits(x);
    let u = pow2(excess_bits(x));
    if excess_bits(x) == 0 {
        lemma_round53_small(x);
    } else {
        lemma_nearest_multiple(x, u);
        let d = round53(x) - x;
        assert(0x10_0000_0000_0000 * d <= x && 0x10_0000_0000_0000 * (-d) <= x) by (nonlinear_arith)
            requires
                -u < d < u,
                0x10_0000_0000_0000 * u <= x,
        ;
    }
}

/// A number that lies below a double-precision number by less than one part in 2^54 of it
/// is rounded to it.
pub proof fn lemma_round53_reaches(x: nat, y: nat)
    requires
        x <= y,
        round53(y) == y,
        0x40_0000_0000_0000 * (y - x) < y || x == y,
    ensures
        round53(x) == y,
{
    if x < y {
        let u = pow2(excess_bits(x));
        let v = pow2(excess_bits(y));
        lemma_excess_bits(x);
        lemma_excess_bits(y);
        lemma_excess_bits_monotone(x, y);
        lemma_nearest_multiple(y, v);
        let k = choose|k: nat| y == #[trigger] (k * v);
        let t = pow2((excess_bits(y) - excess_bits(x)) as nat);
        lemma_pow2_adds(excess_bits(x), (excess_bits(y) - excess_bits(x)) as nat);
        let b = k * t;
        assert(k * (u * t) == (k * t) * u) by (nonlinear_arith);
        assert(y == b * u);
        let d = (y - x) as nat;
        assert(b <= 0x20_0000_0000_0000) by {
            if b > 0x20_0000_0000_0000 {
                assert(y >= 0x20_0000_0000_0000 * u + u) by (nonlinear_arith)
                    requires
                        y == b * u,
                        b >= 0x20_0000_0000_0001,
                ;
                assert(d > u);
                assert(0x40_0000_0000_0000 * d >= y) by (nonlinear_arith)
                    requires
                        d > u,
                        y == x + d,
                        x < 0x20_0000_0000_0000 * u,
                ;
            }
        }
        assert(2 * d < u) by (nonlinear_arith)
            requires
                0x40_0000_0000_0000 * d < y,
                y == b * u,
                b <= 0x20_0000_0000_0000,
        ;
        let q = (b - 1) as nat;
        assert(b > 0) by (nonlinear_arith)
            requires
                y == b * u,
                y > 0,
        ;
        assert((b - 1) * u == b * u - u) by (nonlinear_arith);
        let r = (u - d) as nat;
        assert(x == q * u + r);
        lemma_fundamental_div_mod_converse(x as int, u as int, q as int, r as int);
    }
}

/// A number is rounded to the nearest double-precision number: a significand of at most 2^53
/// times a power of two, as fine as the significand allows, half of which is no less than
/// what separates the two; where it is all of that, the significand is even.
pub proof fn law_round53_nearest(x: nat)
    ensures
        exists|a: nat, k: nat|
            {
                &&& round53(x) == #[trigger] (a * pow2(k))
                &&& a <= 0x20_0000_0000_0000
                &&& k > 0 ==> a >= 0x10_0000_0000_0000
                &&& k == 0 ==> x < 0x20_0000_0000_0000
                &&& k > 0 ==> 0x10_0000_0000_0000 * pow2(k) <= x < 0x20_0000_0000_0000 * pow2(k)
                &&& -pow2(k) <= 2 * (round53(x) - x) <= pow2(k)
                &&& 2 * (round53(x) - x) == pow2(k) || 2 * (x - round53(x)) == pow2(k) ==> a % 2
                    == 0
            },
{
    let k = excess_bits(x);
    let u = pow2(k);
    lemma_excess_bits(x);
    let q = x / u;
    let r = x % u;
    lemma_fundamental_div_mod(x as int, u as int);
    lemma_mod_bound(x as int, u as int);
    assert(u * q == q * u && (q + 1) * u == q * u + u) by (nonlinear_arith);
    assert(q < 0x20_0000_0000_0000) by (nonlinear_arith)
        requires
            q * u <= x,
            x < 0x20_0000_0000_0000 * u,
    ;
    if k > 0 {
        assert(q >= 0x10_0000_0000_0000) by (nonlinear_arith)
            requires
                x == q * u + r,
                r < u,
                x >= 0x10_0000_0000_0000 * u,
        ;
    } else {
        lemma2_to64();
        assert(u == 1);
    }
    let down = 2 * r < u || (2 * r == u && q % 2 == 0);
    let a: nat = if down {
        q
    } else {
        (q + 1) as nat
    };
    assert(round53(x) == a * pow2(k));
}

} // verus!
