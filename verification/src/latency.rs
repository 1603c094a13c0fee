//! Summaries of measured latencies. A duration is a number of nanoseconds.
use crate::binary64::{
    excess_bits, fraction, halved53, keep53, law_round53_near, lemma_fraction,
    lemma_fraction_monotone, lemma_round53_bound, lemma_round53_exact, lemma_round53_form,
    lemma_round53_large, lemma_round53_monotone, lemma_round53_reaches, lemma_round53_scale,
    lemma_round53_small, lemma_round53_sticky, one, point, power_of_two, round53, significand,
    significand_and_point, FINEST, INFINITY_BITS, ONE_BITS, SIGNIFICAND,
};
use vstd::arithmetic::div_mod::*;
use vstd::arithmetic::power2::*;
use vstd::prelude::*;
use vstd::relations::*;
use vstd::seq_lib::*;

verus! {

/// The nanoseconds that no duration reaches: 2^64 seconds.
pub const DURATION_LIMIT: u128 = 18_446_744_073_709_551_616_000_000_000;

/// The bits of 0.5.
pub const P50: u64 = 0x3fe0_0000_0000_0000;

/// The bits of the double-precision number nearest to 0.95.
pub const P95: u64 = 0x3fee_6666_6666_6666;

/// The bits of the double-precision number nearest to 0.99.
pub const P99: u64 = 0x3fef_ae14_7ae1_47ae;

/// The shorter of two durations, where there are two, and otherwise the one that there is.
pub open spec fn shorter_of(a: Option<u128>, b: Option<u128>) -> Option<u128> {
    match (a, b) {
        (Some(x), Some(y)) => Some(if x <= y { x } else { y }),
        (Some(x), None) => Some(x),
        (None, y) => y,
    }
}

/// The shorter of two durations is one of them, and neither is shorter; none is only where
/// there is none at all. It does not matter which comes first, nor how three are taken.
pub proof fn law_shorter_of(a: Option<u128>, b: Option<u128>, c: Option<u128>)
    ensures
        shorter_of(a, b) == a || shorter_of(a, b) == b,
        shorter_of(a, b) is None <==> a is None && b is None,
        a matches Some(x) ==> shorter_of(a, b)->0 <= x,
        b matches Some(y) ==> shorter_of(a, b)->0 <= y,
        shorter_of(a, b) == shorter_of(b, a),
        shorter_of(shorter_of(a, b), c) == shorter_of(a, shorter_of(b, c)),
{
}

/// The shorter of two durations, where there are two.
pub fn min_optional_duration(a: Option<u128>, b: Option<u128>) -> (r: Option<u128>)
    ensures
        r == match (a, b) {
            (Some(x), Some(y)) => Some(if x <= y { x } else { y }),
            (Some(x), None) => Some(x),
            (None, y) => y,
        },
        r == shorter_of(a, b),
{
    match (a, b) {
        (Some(x), Some(y)) => if x <= y {
            Some(x)
        } else {
            Some(y)
        },
        (Some(x), None) => Some(x),
        (None, Some(y)) => Some(y),
        (None, None) => None,
    }
}

/// Whether durations are in ascending order.
pub open spec fn ascending(values: Seq<u128>) -> bool {
    forall|i: int, j: int| 0 <= i <= j < values.len() ==> values[i] <= values[j]
}

/// Whether durations are ones that can be measured.
pub open spec fn durations(values: Seq<u128>) -> bool {
    forall|i: int| 0 <= i < values.len() ==> #[trigger] values[i] < DURATION_LIMIT
}

/// The point between `lo` and `hi` that lies at `weight`, a multiple of the smallest
/// double-precision number, of the way, in double-precision arithmetic, cut to whole
/// nanoseconds and to what 64 bits hold.
pub open spec fn interpolated(lo: nat, hi: nat, weight: nat) -> nat {
    let low = round53(lo);
    let gap = round53((round53(hi) - low) as nat);
    let sum = round53(low * one() + round53(gap * weight));
    capped(sum / one())
}

/// A number of nanoseconds, cut to what 64 bits hold.
pub open spec fn capped(whole: nat) -> nat {
    if whole > u64::MAX {
        u64::MAX as nat
    } else {
        whole
    }
}

/// How far into `n` ascending values the percentile `p` reaches, as a multiple of the
/// smallest double-precision number.
pub open spec fn rank(n: nat, p: u64) -> nat {
    round53(fraction(p) * round53((n - 1) as nat))
}

/// Whether the percentile `p` does not reach beyond the last of `n` values. It does so
/// only where it is almost one and there are so many values that their number is rounded
/// up.
pub open spec fn in_reach(n: nat, p: u64) -> bool {
    p <= ONE_BITS && rank(n, p) <= (n - 1) * one()
}

/// The percentile of ascending values that the double-precision number with the bits
/// `p` asks for: the value at its rank, or a point between the two values around it.
/// The first value stands for what is negative or no number.
pub open spec fn percentile_of(sorted: Seq<u128>, p: u64) -> nat {
    let at = rank(sorted.len(), p);
    let lower = (at / one()) as int;
    let weight = at % one();
    if sorted.len() == 1 || p > ONE_BITS {
        sorted[0] as nat
    } else if weight == 0 {
        sorted[lower] as nat
    } else {
        interpolated(sorted[lower] as nat, sorted[lower + 1] as nat, weight)
    }
}

proof fn lemma_rank(n: nat, p: u64)
    requires
        1 <= n,
        in_reach(n, p),
    ensures
        rank(n, p) / one() <= n - 1,
        rank(n, p) % one() > 0 ==> rank(n, p) / one() + 1 <= n - 1,
{
    let m = (n - 1) as nat;
    let s = one();
    lemma_pow2_pos(FINEST as nat);
    let at = rank(n, p);
    lemma_fundamental_div_mod(at as int, s as int);
    lemma_mod_bound(at as int, s as int);
    let q = at / s;
    let r = at % s;
    assert(q <= m && (r > 0 ==> q + 1 <= m)) by (nonlinear_arith)
        requires
            at == s * q + r,
            r >= 0,
            at <= m * s,
            s > 0,
    ;
}

/// Every percentile is in reach where the number of values below the last one is a
/// double-precision number, as every number up to 2^53 is.
pub proof fn law_percentiles_in_reach(n: nat, p: u64)
    requires
        1 <= n,
        p <= ONE_BITS,
    ensures
        round53((n - 1) as nat) == n - 1 ==> in_reach(n, p),
        n <= SIGNIFICAND + 1 ==> round53((n - 1) as nat) == n - 1,
{
    let m = (n - 1) as nat;
    let s = one();
    let f = fraction(p);
    lemma_fraction(p);
    lemma2_to64();
    if n <= SIGNIFICAND + 1 {
        lemma_round53_exact(m, 0);
        assert(m * pow2(0) == m);
    }
    if round53(m) == m {
        assert(f * m <= m * s) by (nonlinear_arith)
            requires
                f <= s,
        ;
        lemma_round53_monotone(f * m, m * s);
        lemma_round53_scale(m, FINEST as nat);
    }
}

/// The bits of 127/128.
pub const MOST_BITS: u64 = 0x3fef_c000_0000_0000;

/// Every percentile up to 127/128 is in reach, however many values there are.
pub proof fn law_usual_percentiles_in_reach(n: nat, p: u64)
    requires
        1 <= n,
        p <= MOST_BITS,
    ensures
        in_reach(n, p),
{
    let m = (n - 1) as nat;
    let s = one();
    if n <= SIGNIFICAND {
        law_percentiles_in_reach(n, p);
    } else {
        let f = fraction(p);
        let g = fraction(MOST_BITS);
        lemma_fraction_monotone(p, MOST_BITS);
        lemma2_to64();
        lemma2_to64_rest();
        assert(significand(MOST_BITS) == 127 * pow2(46) && point(MOST_BITS) == 53);
        lemma_pow2_adds(46, 1021);
        let low = pow2(1067);
        let (x, y) = (pow2(46), pow2(1021));
        assert((127 * x) * y == 127 * (x * y)) by (nonlinear_arith);
        assert(g == 127 * low);
        let a = lemma_round53_large(m);
        let e = excess_bits(m);
        let u = pow2(e);
        let r = round53(m);
        lemma_pow2_adds(7, 1067);
        lemma_pow2_adds(e, FINEST as nat);
        assert(s == 128 * low);
        let b = (a - 1) as nat;
        assert(f * r <= b * (u * s)) by (nonlinear_arith)
            requires
                f <= 127 * low,
                r == a * u,
                s == 128 * low,
                a >= 128,
                b == a - 1,
        ;
        lemma_round53_exact(b, e + FINEST as nat);
        lemma_round53_monotone(f * r, b * (u * s));
        assert(b * (u * s) <= m * s) by (nonlinear_arith)
            requires
                b == a - 1,
                a * u < m + u,
        ;
    }
}

/// What the scale of both parts of a sum does not change.
proof fn lemma_whole(low: nat, step: nat, t: nat, c: nat)
    requires
        t > 0,
    ensures
        t * pow2(c) > 0,
        round53(low * (t * pow2(c)) + step * pow2(c)) / (t * pow2(c)) == round53(low * t + step)
            / t,
{
    let w = pow2(c);
    lemma_pow2_pos(c);
    assert(low * (t * w) + step * w == (low * t + step) * w) by (nonlinear_arith);
    lemma_round53_scale(low * t + step, c);
    let r = round53(low * t + step);
    lemma_div_multiples_vanish_quotient(w as int, r as int, t as int);
    assert(w * r == r * w && w * t == t * w) by (nonlinear_arith);
}

proof fn lemma_interpolated_scale(lo: nat, hi: nat, v: nat, h: nat)
    requires
        lo <= hi,
        h <= 1021,
    ensures
        ({
            let low = round53(lo);
            let gap = round53((round53(hi) - low) as nat);
            let t = pow2(53 + h);
            interpolated(lo, hi, v * pow2((1021 - h) as nat)) == capped(
                round53(low * t + round53(gap * v)) / t,
            )
        }),
{
    let low = round53(lo);
    lemma_round53_monotone(lo, hi);
    let gap = round53((round53(hi) - low) as nat);
    let z = (1021 - h) as nat;
    let t = pow2(53 + h);
    let w = pow2(z);
    lemma_pow2_adds(53 + h, z);
    lemma_pow2_pos(53 + h);
    assert(gap * (v * w) == (gap * v) * w) by (nonlinear_arith);
    lemma_round53_scale(gap * v, z);
    lemma_whole(low, round53(gap * v), t, z);
}

/// What a number is after `times` halvings, and whether anything was lost.
fn halved(x: u128, times: u64) -> (r: (u128, bool))
    ensures
        r.0 == x as nat / pow2(times as nat),
        r.1 == (x as nat % pow2(times as nat) > 0),
{
    let mut q: u128 = x;
    let mut lost = false;
    let mut i: u64 = 0;
    let ghost mut rest: nat = 0;
    proof {
        lemma2_to64();
    }
    while i < times
        invariant
            i <= times,
            x == q * pow2(i as nat) + rest,
            rest < pow2(i as nat),
            lost == (rest > 0),
        decreases times - i,
    {
        proof {
            let w = pow2(i as nat);
            lemma_pow2_unfold((i + 1) as nat);
            let half = (q / 2) as nat;
            let bit = (q % 2) as nat;
            assert(q * w == half * (2 * w) + bit * w) by (nonlinear_arith)
                requires
                    q == 2 * half + bit,
            ;
            assert(bit * w == 0 || bit * w == w) by (nonlinear_arith)
                requires
                    bit == 0 || bit == 1,
            ;
            assert(bit == 0 ==> bit * w == 0) by (nonlinear_arith);
            assert(bit == 1 ==> bit * w == w) by (nonlinear_arith);
            rest = rest + bit * w;
        }
        if q % 2 == 1 {
            lost = true;
        }
        q = q / 2;
        i = i + 1;
    }
    proof {
        let w = pow2(times as nat);
        lemma_fundamental_div_mod_converse(x as int, w as int, q as int, rest as int);
    }
    (q, lost)
}

/// The sum of `low` and `step / 2^(53 + shift)` in double-precision arithmetic, cut to
/// a whole number, where the second is a fraction of finer grain.
fn fine_sum(low: u128, step: u128, shift: u64) -> (r: u128)
    requires
        low <= u64::MAX,
        step < 0x8_0000_0000_0000_0000_0000_0000_0000,
        round53(step as nat) == step,
        shift > 0,
    ensures
        r == round53((low * pow2((53 + shift) as nat) + step) as nat) / pow2((53 + shift) as nat),
{
    let ghost w = pow2(shift as nat);
    let ghost t = pow2((53 + shift) as nat);
    let ghost s: nat = 0x20_0000_0000_0000;
    proof {
        lemma2_to64();
        lemma2_to64_rest();
        lemma_pow2_adds(53, shift as nat);
        lemma_pow2_pos(shift as nat);
        lemma_fundamental_div_mod(step as int, w as int);
        lemma_mod_bound(step as int, w as int);
    }
    let (q, lost) = halved(step, shift);
    let ghost rest = step as nat % w;
    assert(q <= step) by (nonlinear_arith)
        requires
            step == w * q + rest,
            rest >= 0,
            w >= 1,
            q >= 0,
    ;
    if low == 0 {
        proof {
            assert(0 * t == 0) by (nonlinear_arith);
            lemma_div_denominator(step as int, w as int, s as int);
            assert(w * s == t) by (nonlinear_arith)
                requires
                    t == s * w,
            ;
        }
        return q / SIGNIFICAND;
    }
    let a: u128 = low * SIGNIFICAND + q;
    proof {
        assert(low * t + step == a * w + rest) by (nonlinear_arith)
            requires
                t == s * w,
                a == low * s + q,
                step == w * q + rest,
        ;
    }
    if lost {
        proof {
            lemma_round53_sticky(a as nat, shift as nat, rest);
            let below = pow2((shift - 1) as nat);
            lemma_pow2_unfold(shift as nat);
            lemma_pow2_pos((shift - 1) as nat);
            let r = round53((2 * a + 1) as nat);
            lemma_div_multiples_vanish_quotient(below as int, r as int, (2 * s) as int);
            assert(below * r == r * below) by (nonlinear_arith);
            assert(below * (2 * s) == s * (2 * below)) by (nonlinear_arith);
        }
        keep53(2 * a + 1) / (2 * SIGNIFICAND)
    } else {
        proof {
            lemma_round53_scale(a as nat, shift as nat);
            let r = round53(a as nat);
            lemma_div_multiples_vanish_quotient(w as int, r as int, s as int);
            assert(w * r == r * w && w * s == s * w) by (nonlinear_arith);
        }
        keep53(a) / SIGNIFICAND
    }
}

/// The point at `v / 2^(53 + h)` of the way from `lo` to `hi`.
fn interpolate(lo: u128, hi: u128, v: u128, h: u64) -> (r: u128)
    requires
        lo <= hi < DURATION_LIMIT,
        v < SIGNIFICAND,
        h <= 1021,
    ensures
        r == interpolated(lo as nat, hi as nat, v as nat * pow2((1021 - h) as nat)),
{
    let ghost s: nat = 0x20_0000_0000_0000;
    let ghost t = pow2((53 + h) as nat);
    proof {
        lemma_round53_monotone(lo as nat, hi as nat);
        lemma_round53_bound(lo as nat);
        lemma_round53_bound(hi as nat);
        lemma2_to64();
        lemma2_to64_rest();
        lemma_pow2_pos((53 + h) as nat);
    }
    let low: u128 = keep53(lo);
    let high: u128 = keep53(hi);
    let gap: u128 = keep53(high - low);
    let ghost step_spec = round53((gap * v) as nat);
    let ghost sum_spec = round53((low * t + step_spec) as nat);
    proof {
        lemma_interpolated_scale(lo as nat, hi as nat, v as nat, h as nat);
        lemma_round53_bound((high - low) as nat);
        lemma_round53_form((high - low) as nat);
        // What is added only moves the sum up.
        lemma_round53_form(lo as nat);
        lemma_round53_scale(low as nat, (53 + h) as nat);
        assert(low * t >= 0) by (nonlinear_arith);
        lemma_round53_monotone((low * t) as nat, (low * t + step_spec) as nat);
    }
    if low > 0xffff_ffff_ffff_ffff {
        proof {
            assert(sum_spec / t >= low) by (nonlinear_arith)
                requires
                    sum_spec >= low * t,
                    t > 0,
            ;
        }
        return 0xffff_ffff_ffff_ffff;
    }
    // The gap has 53 significant bits: what is left of it after the halvings is
    // scaled back behind the product.
    let (g, halvings) = halved53(gap);
    assert(g * v < 0x20_0000_0000_0000 * 0x20_0000_0000_0000) by (nonlinear_arith)
        requires
            g < 0x20_0000_0000_0000,
            v < 0x20_0000_0000_0000,
            g >= 0,
            v >= 0,
    ;
    let mut step: u128 = keep53(g * v);
    let common: u64 = if halvings <= h {
        halvings
    } else {
        h
    };
    let mut doublings: u64 = halvings - common;
    let shift: u64 = h - common;
    let ghost st = step as nat * pow2(doublings as nat);
    let ghost tt = pow2((53 + shift) as nat);
    proof {
        let u = pow2(halvings as nat);
        assert((g * u) * v == (g * v) * u) by (nonlinear_arith);
        lemma_round53_scale((g * v) as nat, halvings as nat);
        lemma_round53_bound((g * v) as nat);
        lemma_round53_form((g * v) as nat);
        lemma_pow2_adds(doublings as nat, common as nat);
        lemma_pow2_adds((53 + shift) as nat, common as nat);
        lemma_pow2_pos((53 + shift) as nat);
        let c = pow2(common as nat);
        let d = pow2(doublings as nat);
        assert(step * (d * c) == (step * d) * c) by (nonlinear_arith);
        assert(step_spec == st * c);
        assert(t == tt * c);
        lemma_whole(low as nat, st, tt, common as nat);
        assert(sum_spec / t == round53((low * tt + st) as nat) / tt);
    }
    if shift > 0 {
        assert(st == step) by {
            assert(step * pow2(0) == step) by (nonlinear_arith)
                requires
                    pow2(0) == 1,
            ;
        }
        let whole: u128 = fine_sum(low, step, shift);
        return if whole > 0xffff_ffff_ffff_ffff {
            0xffff_ffff_ffff_ffff
        } else {
            whole
        };
    }
    assert(tt == s);
    let ghost sum = round53((low * s + st) as nat);
    proof {
        lemma_round53_scale(step as nat, doublings as nat);
        lemma_round53_monotone(st, (low * s + st) as nat);
    }
    while doublings > 0
        invariant
            step < 0x8000_0000_0000_0000_0000_0000_0000_0000,
            step * pow2(doublings as nat) == st,
            sum >= st,
            s == 0x20_0000_0000_0000,
            interpolated(lo as nat, hi as nat, v as nat * pow2((1021 - h) as nat)) == capped(
                sum / s,
            ),
        decreases doublings,
    {
        if step >= 0x20_0000_0000_0000_0000_0000_0000_0000 {
            proof {
                lemma_pow2_pos(doublings as nat);
                let u = pow2(doublings as nat);
                assert(step * u >= step) by (nonlinear_arith)
                    requires
                        u >= 1,
                        step >= 0,
                ;
            }
            return 0xffff_ffff_ffff_ffff;
        }
        proof {
            lemma_pow2_unfold(doublings as nat);
            let u = pow2((doublings - 1) as nat);
            assert(step * (2 * u) == (2 * step) * u) by (nonlinear_arith);
        }
        step = 2 * step;
        doublings = doublings - 1;
    }
    assert(pow2(0) == 1);
    assert(step * pow2(0) == step) by (nonlinear_arith)
        requires
            pow2(0) == 1,
    ;
    if step >= 0x20_0000_0000_0000_0000_0000_0000_0000 {
        return 0xffff_ffff_ffff_ffff;
    }
    let whole: u128 = keep53(low * SIGNIFICAND + step) / SIGNIFICAND;
    if whole > 0xffff_ffff_ffff_ffff {
        0xffff_ffff_ffff_ffff
    } else {
        whole
    }
}

/// Where the value or the two values around a rank stand: the rank is `a / 2^c`.
proof fn lemma_rank_parts(n: nat, p: u64, a: nat, j: nat)
    requires
        1 <= n,
        p <= ONE_BITS,
        round53(significand(p) * round53((n - 1) as nat)) == a * pow2(j),
    ensures
        j >= point(p) ==> rank(n, p) / one() == a * pow2((j - point(p)) as nat) && rank(n, p)
            % one() == 0,
        j < point(p) ==> ({
            let c = (point(p) - j) as nat;
            &&& rank(n, p) / one() == a / pow2(c)
            &&& rank(n, p) % one() == (a % pow2(c)) * pow2((FINEST - c) as nat)
        }),
{
    lemma_fraction(p);
    let k = point(p);
    let m = significand(p);
    let x = round53((n - 1) as nat);
    let z = (FINEST - k) as nat;
    let w = pow2(z);
    assert((m * w) * x == (m * x) * w) by (nonlinear_arith);
    lemma_round53_scale(m * x, z);
    let u = pow2(j);
    assert((a * u) * w == a * (u * w)) by (nonlinear_arith);
    lemma_pow2_adds(j, z);
    lemma_pow2_pos(FINEST as nat);
    if j >= k {
        let d = (j - k) as nat;
        lemma_pow2_adds(d, FINEST as nat);
        let y = pow2(d);
        let s = one();
        assert(a * (y * s) == (a * y) * s) by (nonlinear_arith);
        assert(rank(n, p) == (a * y) * s);
        lemma_div_by_multiple((a * y) as int, s as int);
        lemma_mod_multiples_basic((a * y) as int, s as int);
    } else {
        let c = (k - j) as nat;
        let e = (FINEST - c) as nat;
        lemma_pow2_adds(c, e);
        lemma_pow2_pos(c);
        lemma_pow2_pos(e);
        let f = pow2(e);
        let g = pow2(c);
        assert(rank(n, p) == a * f);
        assert(f * a == a * f && f * g == g * f) by (nonlinear_arith);
        lemma_div_multiples_vanish_quotient(f as int, a as int, g as int);
        lemma_truncate_middle(a as int, f as int, g as int);
        assert(f * (a % g) == (a % g) * f) by (nonlinear_arith);
    }
}

/// The percentile of ascending values that the double-precision number with the bits
/// `p` asks for. What reaches beyond the last value asks for none, unless there is one
/// value alone.
pub fn percentile(sorted: &Vec<u128>, p: u64) -> (r: u128)
    requires
        1 <= sorted@.len(),
        in_reach(sorted@.len(), p) || p > INFINITY_BITS || sorted@.len() == 1,
        ascending(sorted@),
        durations(sorted@),
    ensures
        r == percentile_of(sorted@, p),
{
    let n: usize = sorted.len();
    if n == 1 || p > ONE_BITS {
        return sorted[0];
    }
    let (m, k) = significand_and_point(p);
    proof {
        lemma_rank(n as nat, p);
        lemma_fraction(p);
        lemma2_to64();
        lemma2_to64_rest();
        lemma_round53_bound((n - 1) as nat);
    }
    let spaces: u128 = keep53((n - 1) as u128);
    assert(0 <= m * spaces <= 0x20_0000_0000_0000 * 0x2_0000_0000_0000_0000) by (nonlinear_arith)
        requires
            0 <= m <= 0x20_0000_0000_0000,
            0 <= spaces <= 0x2_0000_0000_0000_0000,
    ;
    let product: u128 = keep53(m as u128 * spaces);
    proof {
        lemma_round53_bound((m * spaces) as nat);
        lemma_round53_form((m * spaces) as nat);
    }
    let (a, j) = halved53(product);
    proof {
        lemma_rank_parts(n as nat, p, a as nat, j as nat);
    }
    if j >= k {
        if a == 0 {
            proof {
                let w = pow2((j - k) as nat);
                assert(0 * w == 0) by (nonlinear_arith);
            }
            return sorted[0];
        }
        proof {
            let w = pow2((j - k) as nat);
            lemma_pow2_pos((j - k) as nat);
            assert(a * w >= w) by (nonlinear_arith)
                requires
                    a >= 1,
                    w > 0,
            ;
            if j - k > 64 {
                lemma_pow2_strictly_increases(64, (j - k) as nat);
            }
        }
        let w: u128 = power_of_two(j - k);
        return sorted[(a * w) as usize];
    }
    let c: u64 = k - j;
    if c <= 53 {
        let w: u128 = power_of_two(c);
        proof {
            lemma_pow2_pos(c as nat);
        }
        let lower: usize = (a / w) as usize;
        let v: u128 = a % w;
        let up: u128 = power_of_two(53 - c);
        proof {
            lemma_pow2_adds(c as nat, (53 - c) as nat);
            lemma_pow2_adds((53 - c) as nat, 1021);
            let y = pow2(1021);
            lemma_pow2_pos((FINEST - c) as nat);
            lemma_pow2_pos((53 - c) as nat);
            assert(v * (up * y) == (v * up) * y) by (nonlinear_arith);
            assert(0 <= v * up < w * up) by (nonlinear_arith)
                requires
                    0 <= v < w,
                    up > 0,
            ;
            let f = pow2((FINEST - c) as nat);
            assert(v > 0 ==> v * f > 0) by (nonlinear_arith)
                requires
                    f > 0,
            ;
            assert(v == 0 ==> v * f == 0) by (nonlinear_arith);
        }
        if v == 0 {
            return sorted[lower];
        }
        return interpolate(sorted[lower], sorted[lower + 1], v * up, 0);
    }
    proof {
        lemma_pow2_strictly_increases(53, c as nat);
        lemma_basic_div(a as int, pow2(c as nat) as int);
        lemma_small_mod(a as nat, pow2(c as nat));
        let f = pow2((FINEST - c) as nat);
        lemma_pow2_pos((FINEST - c) as nat);
        assert(a > 0 ==> a * f > 0) by (nonlinear_arith)
            requires
                f > 0,
        ;
        assert(a == 0 ==> a * f == 0) by (nonlinear_arith);
    }
    if a == 0 {
        return sorted[0];
    }
    interpolate(sorted[0], sorted[1], a, c - 53)
}

/// The figures that stand for a set of latencies.
#[derive(Debug, Clone, Copy, PartialEq, Eq, Structural)]
pub struct LatencySummary {
    pub mean: u128,
    pub p50: u128,
    pub p95: u128,
    pub p99: u128,
    pub min: u128,
    pub max: u128,
}

impl Default for LatencySummary {
    fn default() -> (r: Self)
        ensures
            r == zero_summary(),
    {
        LatencySummary { mean: 0, p50: 0, p95: 0, p99: 0, min: 0, max: 0 }
    }
}

/// The summary of no latencies.
pub open spec fn zero_summary() -> LatencySummary {
    LatencySummary { mean: 0, p50: 0, p95: 0, p99: 0, min: 0, max: 0 }
}

/// The order of durations.
pub open spec fn no_longer() -> spec_fn(u128, u128) -> bool {
    |a: u128, b: u128| a <= b
}

/// The latencies from the shortest to the longest.
pub open spec fn in_order(values: Seq<u128>) -> Seq<u128> {
    values.sort_by(no_longer())
}

/// The sum of durations.
pub open spec fn total_time(values: Seq<u128>) -> nat
    decreases values.len(),
{
    if values.len() == 0 {
        0
    } else {
        total_time(values.drop_last()) + values.last() as nat
    }
}

/// Whether latencies can be summarized: their sum is a duration, and their
/// number, of which the mean takes the low 32 bits, is no multiple of 2^32.
pub open spec fn can_summarize(values: Seq<u128>) -> bool {
    &&& total_time(values) < DURATION_LIMIT
    &&& values.len() > 0 ==> values.len() % 0x1_0000_0000 > 0
}

/// The summary of latencies.
pub open spec fn summary_of(values: Seq<u128>) -> LatencySummary {
    let sorted = in_order(values);
    if values.len() == 0 {
        zero_summary()
    } else {
        LatencySummary {
            mean: (total_time(values) / (values.len() % 0x1_0000_0000)) as u128,
            p50: percentile_of(sorted, P50) as u128,
            p95: percentile_of(sorted, P95) as u128,
            p99: percentile_of(sorted, P99) as u128,
            min: sorted[0],
            max: sorted.last(),
        }
    }
}

/// Sorts durations, as `slice::sort_unstable` does: what comes out is in
/// ascending order and holds each value as often as before.
#[verifier::external_body]
fn sort_durations(values: &mut Vec<u128>)
    ensures
        ascending(final(values)@),
        final(values)@.to_multiset() == old(values)@.to_multiset(),
{
    values.sort_unstable()
}

proof fn lemma_in_order(values: Seq<u128>)
    ensures
        ascending(in_order(values)),
        in_order(values).to_multiset() == values.to_multiset(),
        in_order(values).len() == values.len(),
        forall|s: Seq<u128>|
            ascending(s) && #[trigger] s.to_multiset() == values.to_multiset() ==> s == in_order(
                values,
            ),
{
    let leq = no_longer();
    assert(total_ordering(leq));
    values.lemma_sort_by_ensures(leq);
    let sorted = in_order(values);
    assert(ascending(sorted)) by {
        assert forall|i: int, j: int| 0 <= i <= j < sorted.len() implies sorted[i] <= sorted[j] by {
            if i < j {
                assert(leq(sorted[i], sorted[j]));
            }
        }
    }
    values.to_multiset_ensures();
    sorted.to_multiset_ensures();
    assert forall|s: Seq<u128>|
        ascending(s) && #[trigger] s.to_multiset() == values.to_multiset() implies s
        == sorted by {
        assert(sorted_by(s, leq));
        lemma_sorted_unique(s, sorted, leq);
    }
}

proof fn lemma_in_order_holds(values: Seq<u128>)
    ensures
        forall|i: int|
            0 <= i < in_order(values).len() ==> values.contains(#[trigger] in_order(values)[i]),
{
    lemma_in_order(values);
    let sorted = in_order(values);
    values.to_multiset_ensures();
    sorted.to_multiset_ensures();
    assert forall|i: int| 0 <= i < sorted.len() implies values.contains(#[trigger] sorted[i]) by {
        assert(sorted.contains(sorted[i]));
        assert(sorted.to_multiset().count(sorted[i]) > 0);
        assert(values.to_multiset().count(sorted[i]) > 0);
    }
}

proof fn lemma_total_time(values: Seq<u128>)
    ensures
        forall|i: int| 0 <= i < values.len() ==> #[trigger] values[i] <= total_time(values),
    decreases values.len(),
{
    if values.len() > 0 {
        let rest = values.drop_last();
        lemma_total_time(rest);
        assert forall|i: int| 0 <= i < values.len() implies #[trigger] values[i] <= total_time(
            values,
        ) by {
            if i < rest.len() {
                assert(rest[i] == values[i]);
            }
        }
    }
}

proof fn lemma_total_time_take(values: Seq<u128>, i: int)
    requires
        0 <= i < values.len(),
    ensures
        total_time(values.take(i + 1)) == total_time(values.take(i)) + values[i],
        total_time(values.take(i + 1)) <= total_time(values),
    decreases values.len() - i,
{
    assert(values.take(i + 1).drop_last() =~= values.take(i));
    if i + 1 < values.len() {
        lemma_total_time_take(values, i + 1);
    } else {
        assert(values.take(i + 1) =~= values);
    }
}

/// Whether latencies can be summarized.
pub fn summarizable(values: &Vec<u128>) -> (r: bool)
    ensures
        r == can_summarize(values@),
{
    let mut total: u128 = 0;
    let mut i: usize = 0;
    while i < values.len()
        invariant
            i <= values@.len(),
            total == total_time(values@.take(i as int)),
            total < DURATION_LIMIT,
        decreases values@.len() - i,
    {
        proof {
            lemma_total_time_take(values@, i as int);
        }
        if values[i] >= DURATION_LIMIT - total {
            return false;
        }
        total = total + values[i];
        i = i + 1;
    }
    assert(values@.take(i as int) =~= values@);
    let n: u128 = values.len() as u128;
    n == 0 || n % 0x1_0000_0000 > 0
}

/// Summarizes latencies.
pub fn summarize_latencies(values: &Vec<u128>) -> (r: LatencySummary)
    requires
        can_summarize(values@),
    ensures
        r == summary_of(values@),
{
    if values.len() == 0 {
        return LatencySummary { mean: 0, p50: 0, p95: 0, p99: 0, min: 0, max: 0 };
    }
    let mut sorted: Vec<u128> = Vec::new();
    let mut total: u128 = 0;
    let mut i: usize = 0;
    while i < values.len()
        invariant
            i <= values@.len(),
            sorted@ == values@.take(i as int),
            total == total_time(values@.take(i as int)),
            total_time(values@) < DURATION_LIMIT,
        decreases values@.len() - i,
    {
        proof {
            lemma_total_time_take(values@, i as int);
        }
        sorted.push(values[i]);
        total = total + values[i];
        i = i + 1;
        assert(sorted@ =~= values@.take(i as int));
    }
    assert(values@.take(i as int) =~= values@);
    sort_durations(&mut sorted);
    proof {
        lemma_in_order(values@);
        lemma_in_order_holds(values@);
        lemma_total_time(values@);
        law_usual_percentiles_in_reach(values@.len(), P50);
        law_usual_percentiles_in_reach(values@.len(), P95);
        law_usual_percentiles_in_reach(values@.len(), P99);
        assert(durations(sorted@)) by {
            assert forall|k: int| 0 <= k < sorted@.len() implies #[trigger] sorted@[k]
                < DURATION_LIMIT by {
                assert(values@.contains(sorted@[k]));
            }
        }
    }
    let divisor: u128 = values.len() as u128 % 0x1_0000_0000;
    let mean: u128 = total / divisor;
    LatencySummary {
        mean,
        p50: percentile(&sorted, P50),
        p95: percentile(&sorted, P95),
        p99: percentile(&sorted, P99),
        min: sorted[0],
        max: sorted[sorted.len() - 1],
    }
}

proof fn lemma_interpolated_small(lo: nat, hi: nat, weight: nat)
    requires
        lo <= hi < SIGNIFICAND,
        weight < one(),
    ensures
        lo <= interpolated(lo, hi, weight) <= hi,
{
    let s = one();
    lemma_pow2_pos(FINEST as nat);
    lemma_round53_small(lo);
    lemma_round53_small(hi);
    let gap = (hi - lo) as nat;
    lemma_round53_small(gap);
    assert(gap * weight <= gap * s) by (nonlinear_arith)
        requires
            weight <= s,
    ;
    lemma_round53_exact(gap, FINEST as nat);
    lemma_round53_monotone(gap * weight, gap * s);
    let step = round53(gap * weight);
    lemma_round53_exact(lo, FINEST as nat);
    lemma_round53_exact(hi, FINEST as nat);
    assert(lo * s + gap * s == hi * s) by (nonlinear_arith)
        requires
            gap == hi - lo,
    ;
    lemma_round53_monotone(lo * s, lo * s + step);
    lemma_round53_monotone(lo * s + step, hi * s);
    let sum = round53(lo * s + step);
    assert(lo <= sum / s <= hi) by (nonlinear_arith)
        requires
            lo * s <= sum <= hi * s,
            s > 0,
    ;
}

/// A larger weight reaches at least as far.
proof fn lemma_interpolated_monotone(lo: nat, hi: nat, weight: nat, more: nat)
    requires
        lo <= hi,
        weight <= more,
    ensures
        interpolated(lo, hi, weight) <= interpolated(lo, hi, more),
{
    let s = one();
    lemma_pow2_pos(FINEST as nat);
    lemma_round53_monotone(lo, hi);
    let low = round53(lo);
    let gap = round53((round53(hi) - low) as nat);
    assert(gap * weight <= gap * more) by (nonlinear_arith)
        requires
            weight <= more,
    ;
    lemma_round53_monotone(gap * weight, gap * more);
    let a = low * s + round53(gap * weight);
    let b = low * s + round53(gap * more);
    lemma_round53_monotone(a, b);
    lemma_div_is_ordered(round53(a) as int, round53(b) as int, s as int);
}

/// A percentile of durations below 2^53 nanoseconds lies between the two values
/// around its rank, the first and the last of them all. Zero asks for the first, and one
/// for the last, unless there are so many values that their number is rounded.
pub proof fn law_percentile_between(sorted: Seq<u128>, p: u64)
    requires
        1 <= sorted.len(),
        in_reach(sorted.len(), p),
        ascending(sorted),
        sorted.last() < SIGNIFICAND,
    ensures
        ({
            let at = rank(sorted.len(), p);
            let lower = (at / one()) as int;
            let upper = if at % one() == 0 {
                lower
            } else {
                lower + 1
            };
            &&& 0 <= lower <= upper < sorted.len()
            &&& sorted[lower] <= percentile_of(sorted, p) <= sorted[upper]
        }),
        sorted[0] <= percentile_of(sorted, p) <= sorted.last(),
        percentile_of(sorted, 0) == sorted[0],
        round53((sorted.len() - 1) as nat) == sorted.len() - 1 ==> percentile_of(sorted, ONE_BITS)
            == sorted.last(),
{
    let n = sorted.len();
    lemma_rank(n, p);
    lemma_pow2_pos(FINEST as nat);
    let at = rank(n, p);
    let lower = (at / one()) as int;
    lemma_mod_bound(at as int, one() as int);
    if at % one() > 0 {
        lemma_interpolated_small(sorted[lower] as nat, sorted[lower + 1] as nat, at % one());
    }
    let m = (n - 1) as nat;
    let s = one();
    lemma_fraction(0);
    lemma_fraction(ONE_BITS);
    let r = round53(m);
    assert(0 * r == 0);
    lemma_round53_small(0);
    lemma_basic_div(0, s as int);
    lemma_small_mod(0, s);
    if r == m {
        lemma_round53_scale(m, FINEST as nat);
        assert(s * m == m * s) by (nonlinear_arith);
        lemma_div_by_multiple(m as int, s as int);
        lemma_mod_multiples_basic(m as int, s as int);
    }
}

/// Of durations below 2^53 nanoseconds, a higher percentile is at least as long, and what
/// is below one that is in reach is in reach. The bits of numbers between zero and one are
/// ordered as the numbers are.
pub proof fn law_percentile_monotone(sorted: Seq<u128>, p: u64, q: u64)
    requires
        1 <= sorted.len(),
        p <= q,
        in_reach(sorted.len(), q),
        ascending(sorted),
        sorted.last() < SIGNIFICAND,
    ensures
        in_reach(sorted.len(), p),
        percentile_of(sorted, p) <= percentile_of(sorted, q),
{
    let n = sorted.len();
    let s = one();
    lemma_pow2_pos(FINEST as nat);
    let m = round53((n - 1) as nat);
    let x = fraction(p);
    let y = fraction(q);
    lemma_fraction_monotone(p, q);
    assert(x * m <= y * m) by (nonlinear_arith)
        requires
            x <= y,
    ;
    lemma_round53_monotone(x * m, y * m);
    law_percentile_between(sorted, p);
    law_percentile_between(sorted, q);
    let a = rank(n, p);
    let b = rank(n, q);
    lemma_rank(n, p);
    lemma_rank(n, q);
    lemma_div_is_ordered(a as int, b as int, s as int);
    lemma_fundamental_div_mod(a as int, s as int);
    lemma_fundamental_div_mod(b as int, s as int);
    if n > 1 && a / s == b / s {
        assert(a % s <= b % s);
        if a % s > 0 {
            let lower = (a / s) as int;
            lemma_interpolated_monotone(
                sorted[lower] as nat,
                sorted[lower + 1] as nat,
                a % s,
                b % s,
            );
        }
    }
}

/// The figures of latencies below 2^53 nanoseconds are in order: the shortest,
/// the percentiles from the median up, the longest.
pub proof fn law_summary_in_order(values: Seq<u128>)
    requires
        can_summarize(values),
        forall|i: int| 0 <= i < values.len() ==> #[trigger] values[i] < SIGNIFICAND,
    ensures
        ({
            let s = summary_of(values);
            s.min <= s.p50 <= s.p95 <= s.p99 <= s.max
        }),
{
    if values.len() > 0 {
        let sorted = in_order(values);
        lemma_in_order(values);
        lemma_in_order_holds(values);
        assert(values.contains(sorted.last()));
        law_usual_percentiles_in_reach(sorted.len(), P99);
        law_usual_percentiles_in_reach(sorted.len(), P95);
        law_usual_percentiles_in_reach(sorted.len(), P50);
        law_percentile_between(sorted, P50);
        law_percentile_between(sorted, P95);
        law_percentile_between(sorted, P99);
        law_percentile_monotone(sorted, P50, P95);
        law_percentile_monotone(sorted, P95, P99);
    }
}

proof fn lemma_total_time_multiset(values: Seq<u128>, others: Seq<u128>)
    requires
        values.to_multiset() == others.to_multiset(),
    ensures
        total_time(values) == total_time(others),
    decreases values.len(),
{
    values.to_multiset_ensures();
    others.to_multiset_ensures();
    if values.len() == 0 {
        assert(others.len() == 0);
    } else {
        let last = values.last();
        assert(values.contains(last));
        assert(values.to_multiset().count(last) > 0);
        assert(others.to_multiset().count(last) > 0);
        let k = choose|k: int| 0 <= k < others.len() && others[k] == last;
        let rest = others.remove(k);
        lemma_total_time_remove(others, k);
        assert(values.drop_last() =~= values.remove(values.len() - 1));
        assert(values.remove(values.len() - 1).to_multiset() =~= values.to_multiset().remove(last));
        assert(rest.to_multiset() =~= others.to_multiset().remove(last));
        lemma_total_time_multiset(values.drop_last(), rest);
    }
}

proof fn lemma_total_time_remove(values: Seq<u128>, k: int)
    requires
        0 <= k < values.len(),
    ensures
        total_time(values) == total_time(values.remove(k)) + values[k],
    decreases values.len(),
{
    let rest = values.drop_last();
    if k == values.len() - 1 {
        assert(values.remove(k) =~= rest);
    } else {
        lemma_total_time_remove(rest, k);
        assert(values.remove(k).drop_last() =~= rest.remove(k));
        assert(values.remove(k).last() == values.last());
    }
}

/// A summary does not depend on the order in which the latencies came.
pub proof fn law_summary_ignores_order(values: Seq<u128>, others: Seq<u128>)
    requires
        values.to_multiset() == others.to_multiset(),
    ensures
        summary_of(values) == summary_of(others),
{
    values.to_multiset_ensures();
    others.to_multiset_ensures();
    lemma_in_order(values);
    lemma_in_order(others);
    lemma_total_time_multiset(values, others);
}

proof fn lemma_total_time_bounds(values: Seq<u128>, low: nat, high: nat)
    requires
        forall|i: int| 0 <= i < values.len() ==> low <= #[trigger] values[i] <= high,
    ensures
        low * values.len() <= total_time(values) <= high * values.len(),
    decreases values.len(),
{
    let n = values.len();
    if n > 0 {
        let rest = values.drop_last();
        assert forall|i: int| 0 <= i < rest.len() implies low <= #[trigger] rest[i] <= high by {
            assert(rest[i] == values[i]);
        }
        lemma_total_time_bounds(rest, low, high);
        assert(low * n == low * (n - 1) + low) by (nonlinear_arith);
        assert(high * n == high * (n - 1) + high) by (nonlinear_arith);
    } else {
        assert(low * n == 0 && high * n == 0) by (nonlinear_arith)
            requires
                n == 0,
        ;
    }
}

/// The mean of fewer than 2^32 latencies lies between the shortest and the longest.
pub proof fn law_mean_between(values: Seq<u128>)
    requires
        can_summarize(values),
        0 < values.len() < 0x1_0000_0000,
    ensures
        summary_of(values).min <= summary_of(values).mean <= summary_of(values).max,
{
    let sorted = in_order(values);
    let n = values.len();
    lemma_in_order(values);
    lemma_in_order_holds(values);
    let low = sorted[0] as nat;
    let high = sorted.last() as nat;
    assert forall|i: int| 0 <= i < sorted.len() implies low <= #[trigger] sorted[i] <= high by {}
    lemma_total_time_bounds(sorted, low, high);
    lemma_total_time_multiset(sorted, values);
    let total = total_time(values);
    assert(low <= total / n <= high) by (nonlinear_arith)
        requires
            low * n <= total <= high * n,
            n > 0,
    ;
}

// ---------------------------------------------------------------------------
// What the figures are
// ---------------------------------------------------------------------------

/// Whether a figure stands at `c` hundredths of the way through ascending values, from the
/// first to the last. Where that is at a value, the figure is that value. Where it is
/// between two, the figure is between them too, and divides the gap as the way is divided,
/// cut to whole nanoseconds, but for a hundredth of one and what the size of the gap and the
/// number of values add in double-precision arithmetic. That is where the values are below
/// 2^43 nanoseconds; for larger ones it may be off by five nanoseconds.
pub open spec fn at_hundredths(sorted: Seq<u128>, c: int, figure: int) -> bool {
    let way = c * (sorted.len() - 1);
    let lower = way / 100;
    let rest = way % 100;
    if rest == 0 {
        figure == sorted[lower]
    } else {
        let gap = sorted[lower + 1] - sorted[lower];
        let off = 100 * (figure - sorted[lower]) - rest * gap;
        let small = sorted.last() < 0x800_0000_0000;
        let above = if small {
            1int
        } else {
            500
        };
        let below = if small {
            101int
        } else {
            500
        };
        &&& sorted[lower] <= figure <= sorted[lower + 1]
        &&& 0x2000_0000_0000 * off <= 0x2000_0000_0000 * above + gap * (sorted.len() - 1)
        &&& -(0x2000_0000_0000 * off) <= 0x2000_0000_0000 * below + gap * (sorted.len() - 1)
    }
}

/// Where a percentile stands, when the double-precision number that asks for it lies below
/// `c` hundredths by so little that rounding makes up for it.
proof fn lemma_rank_near(n: nat, p: u64, c: nat)
    requires
        1 <= n <= SIGNIFICAND + 1,
        p <= ONE_BITS,
        point(p) == 53,
        c <= 100,
        0 <= c * 0x20_0000_0000_0000 - 100 * significand(p),
        2 * (c * 0x20_0000_0000_0000 - 100 * significand(p)) < c,
    ensures
        ({
            let m = (n - 1) as nat;
            let at = rank(n, p);
            let s = one();
            &&& (c * m / 100) * s <= at <= ((c * m + 99) / 100) * s
            &&& 0x2000_0000_0000 * (100 * at - c * m * s) <= m * s
            &&& 0x2000_0000_0000 * (c * m * s - 100 * at) <= m * s
        }),
{
    let m = (n - 1) as nat;
    let s = one();
    let z = pow2(1021);
    let g = significand(p);
    let d = (c * 0x20_0000_0000_0000 - 100 * g) as nat;
    lemma2_to64();
    lemma2_to64_rest();
    lemma_pow2_pos(1021);
    lemma_pow2_adds(53, 1021);
    assert(s == 0x20_0000_0000_0000 * z);
    law_percentiles_in_reach(n, p);
    assert(round53(m) == m);
    let x = fraction(p) * m;
    assert(x == g * z * m);
    let low = (c * m / 100) as nat;
    let high = ((c * m + 99) / 100) as nat;
    let r = (c * m) % 100;
    assert(c * m == 100 * low + r);
    assert(c * m <= 100 * high);
    assert(c * m <= 100 * m) by (nonlinear_arith)
        requires
            c <= 100,
    ;
    assert(high <= m);
    // From above.
    assert(x <= high * s) by (nonlinear_arith)
        requires
            x == g * z * m,
            100 * g <= c * 0x20_0000_0000_0000,
            c * m <= 100 * high,
            s == 0x20_0000_0000_0000 * z,
    ;
    lemma_round53_exact(high, FINEST as nat);
    lemma_round53_monotone(x, high * s);
    // From below.
    let y = low * s;
    lemma_round53_exact(low, FINEST as nat);
    if x >= y {
        lemma_round53_monotone(y, x);
    } else {
        let q = (low * 0x20_0000_0000_0000 - g * m) as int;
        assert(y - x == q * z) by (nonlinear_arith)
            requires
                y == low * s,
                s == 0x20_0000_0000_0000 * z,
                x == g * z * m,
                q == low * 0x20_0000_0000_0000 - g * m,
        ;
        assert(100 * q == d * m - r * 0x20_0000_0000_0000) by (nonlinear_arith)
            requires
                q == low * 0x20_0000_0000_0000 - g * m,
                c * m == 100 * low + r,
                d == c * 0x20_0000_0000_0000 - 100 * g,
        ;
        assert(2 * (d * m) <= c * m) by (nonlinear_arith)
            requires
                2 * d < c,
        ;
        assert(q > 0) by (nonlinear_arith)
            requires
                q * z > 0,
                z > 0,
        ;
        assert(d > 0 && m > 0) by (nonlinear_arith)
            requires
                100 * q == d * m - r * 0x20_0000_0000_0000,
                q > 0,
                r >= 0,
                d >= 0,
                m >= 0,
        ;
        assert(2 * (d * m) < c * m) by (nonlinear_arith)
            requires
                2 * d < c,
                m > 0,
        ;
        assert(2 * q < low);
        assert(0x40_0000_0000_0000 * (y - x) < y) by (nonlinear_arith)
            requires
                y - x == q * z,
                y == low * (0x20_0000_0000_0000 * z),
                2 * q < low,
                z > 0,
        ;
        lemma_round53_reaches(x, y);
    }
    // How near.
    law_round53_near(x);
    let at = rank(n, p);
    let ms = m * s;
    let cms = c * m * s;
    assert(cms - 100 * x == d * m * z) by (nonlinear_arith)
        requires
            cms == c * m * s,
            s == 0x20_0000_0000_0000 * z,
            x == g * z * m,
            d == c * 0x20_0000_0000_0000 - 100 * g,
    ;
    let dmz = d * m * z;
    assert(0x20_0000_0000_0000 * dmz == d * ms) by (nonlinear_arith)
        requires
            dmz == d * m * z,
            ms == m * s,
            s == 0x20_0000_0000_0000 * z,
    ;
    assert(0 <= d * ms <= 50 * ms) by (nonlinear_arith)
        requires
            0 <= d <= 50,
            0 <= ms,
    ;
    assert(cms <= 100 * ms) by (nonlinear_arith)
        requires
            cms == c * m * s,
            ms == m * s,
            c <= 100,
    ;
    assert(dmz >= 0);
    assert(x <= ms);
}

/// What is interpolated divides the gap between two values as its weight says, but for
/// five nanoseconds; where the values are below 2^43, it is cut to whole nanoseconds, but for
/// a 256th of one.
proof fn lemma_interpolated_near(lo: nat, hi: nat, weight: nat)
    requires
        lo <= hi < SIGNIFICAND,
        weight < one(),
    ensures
        ({
            let off = (interpolated(lo, hi, weight) - lo) * one() - (hi - lo) * weight;
            &&& -5 * one() <= off <= 5 * one()
            &&& hi < 0x800_0000_0000 ==> -257 * one() <= 256 * off <= one()
        }),
{
    let s = one();
    lemma_pow2_pos(FINEST as nat);
    lemma_interpolated_small(lo, hi, weight);
    lemma_round53_small(lo);
    lemma_round53_small(hi);
    let gap = (hi - lo) as nat;
    lemma_round53_small(gap);
    let part = gap * weight;
    assert(part <= gap * s) by (nonlinear_arith)
        requires
            part == gap * weight,
            weight <= s,
    ;
    let step = round53(part);
    law_round53_near(part);
    lemma_round53_exact(gap, FINEST as nat);
    lemma_round53_monotone(part, gap * s);
    let sum = lo * s + step;
    let whole = round53(sum);
    law_round53_near(sum);
    assert(gap * s <= 0x20_0000_0000_0000 * s && lo * s + gap * s == hi * s && hi * s
        <= 0x20_0000_0000_0000 * s) by (nonlinear_arith)
        requires
            gap == hi - lo,
            lo <= hi < 0x20_0000_0000_0000,
            s > 0,
    ;
    assert(-2 * s <= step - part <= 2 * s);
    assert(-2 * s <= whole - sum <= 2 * s);
    if hi < 0x800_0000_0000 {
        assert(gap * s <= 0x800_0000_0000 * s && hi * s <= 0x800_0000_0000 * s) by (nonlinear_arith)
            requires
                gap <= hi,
                hi < 0x800_0000_0000,
                s > 0,
        ;
        assert(-s <= 512 * (step - part) <= s);
        assert(-s <= 512 * (whole - sum) <= s);
    }
    let v = whole / s;
    lemma_fundamental_div_mod(whole as int, s as int);
    lemma_mod_bound(whole as int, s as int);
    assert(s * v == v * s) by (nonlinear_arith);
    lemma_round53_exact(hi, FINEST as nat);
    lemma_round53_monotone(sum, hi * s);
    assert(v <= hi) by (nonlinear_arith)
        requires
            v * s <= whole,
            whole <= hi * s,
            s > 0,
    ;
    assert(interpolated(lo, hi, weight) == v);
    assert((v - lo) * s == v * s - lo * s) by (nonlinear_arith);
}

proof fn lemma_percentile_stands(sorted: Seq<u128>, p: u64, c: nat)
    requires
        1 <= sorted.len() <= SIGNIFICAND + 1,
        ascending(sorted),
        sorted.last() < SIGNIFICAND,
        p <= ONE_BITS,
        point(p) == 53,
        c <= 100,
        0 <= c * 0x20_0000_0000_0000 - 100 * significand(p),
        2 * (c * 0x20_0000_0000_0000 - 100 * significand(p)) < c,
    ensures
        at_hundredths(sorted, c as int, percentile_of(sorted, p) as int),
{
    let n = sorted.len();
    let m = (n - 1) as nat;
    let s = one();
    lemma_pow2_pos(FINEST as nat);
    lemma_rank_near(n, p, c);
    law_percentiles_in_reach(n, p);
    lemma_rank(n, p);
    let at = rank(n, p);
    let way = c * m;
    assert(way <= 100 * m) by (nonlinear_arith)
        requires
            way == c * m,
            c <= 100,
    ;
    let low = (way / 100) as nat;
    let high = ((way + 99) / 100) as nat;
    let rest = way % 100;
    if m == 0 {
        assert(way == 0) by (nonlinear_arith)
            requires
                way == c * m,
                m == 0,
        ;
    } else if rest == 0 {
        assert(high == low);
        assert(at == low * s);
        lemma_div_by_multiple(low as int, s as int);
        lemma_mod_multiples_basic(low as int, s as int);
    } else {
        assert(high == low + 1);
        let w = (at - low * s) as nat;
        assert((low + 1) * s == low * s + s) by (nonlinear_arith);
        let lo = sorted[low as int] as nat;
        let hi = sorted[low as int + 1] as nat;
        let gap = (hi - lo) as nat;
        let v = percentile_of(sorted, p);
        if w == s {
            lemma_div_by_multiple((low + 1) as int, s as int);
            lemma_mod_multiples_basic((low + 1) as int, s as int);
            assert(v == hi);
        } else {
            assert(at == s * low + w) by {
                assert(s * low == low * s) by (nonlinear_arith);
            }
            lemma_fundamental_div_mod_converse(at as int, s as int, low as int, w as int);
            if w > 0 {
                lemma_interpolated_small(lo, hi, w);
                lemma_interpolated_near(lo, hi, w);
            } else {
                assert((lo - lo) * s - gap * 0 == 0);
            }
        }
        let off = (v - lo) * s - gap * w;
        let small = sorted.last() < 0x800_0000_0000;
        assert(-5 * s <= off <= 5 * s && (small ==> -257 * s <= 256 * off <= s)) by {
            if w == s {
                assert(off == 0) by (nonlinear_arith)
                    requires
                        off == (v - lo) * s - gap * w,
                        v == hi,
                        gap == hi - lo,
                        w == s,
                ;
            } else if w == 0 {
                assert(off == 0) by (nonlinear_arith)
                    requires
                        off == (v - lo) * s - gap * w,
                        v == lo,
                        w == 0,
                ;
            }
        }
        let k = 100 * w - rest * s;
        assert(100 * at - c * m * s == k) by (nonlinear_arith)
            requires
                k == 100 * w - rest * s,
                w == at - low * s,
                c * m == 100 * low + rest,
        ;
        let e = 100 * (v - lo) - rest * gap;
        assert(e * s == 100 * off + gap * k) by (nonlinear_arith)
            requires
                e == 100 * (v - lo) - rest * gap,
                off == (v - lo) * s - gap * w,
                k == 100 * w - rest * s,
        ;
        let b: int = 0x2000_0000_0000;
        let ms = m * s;
        assert(b * (gap * k) <= gap * ms && -(b * (gap * k)) <= gap * ms) by (nonlinear_arith)
            requires
                b * k <= ms,
                -(b * k) <= ms,
                gap >= 0,
        ;
        assert((b * e) * s == b * (e * s)) by (nonlinear_arith);
        let above = if small {
            1int
        } else {
            500
        };
        let below = if small {
            101int
        } else {
            500
        };
        assert((b * above + gap * m) * s == b * (above * s) + gap * ms && (b * below + gap * m) * s
            == b * (below * s) + gap * ms) by (nonlinear_arith)
            requires
                ms == m * s,
        ;
        assert(100 * off <= above * s && -(100 * off) <= below * s);
        let top = b * above + gap * m;
        let bottom = b * below + gap * m;
        assert(b * e <= top && -(b * e) <= bottom) by (nonlinear_arith)
            requires
                (b * e) * s <= top * s,
                -((b * e) * s) <= bottom * s,
                s > 0,
        ;
    }
}

/// Every figure of a summary is what it says: put the latencies in ascending order, and the
/// shortest is the first, the longest the last, and the median and the 95th and 99th
/// percentiles stand 50, 95 and 99 hundredths of the way between them, whatever the number
/// of latencies. This is of latencies below 2^53 nanoseconds, and no more than 2^53 + 1 of
/// them.
pub proof fn law_summary_figures(values: Seq<u128>, sorted: Seq<u128>)
    requires
        1 <= values.len() <= 0x20_0000_0000_0001,
        forall|i: int| 0 <= i < values.len() ==> #[trigger] values[i] < 0x20_0000_0000_0000,
        forall|i: int, j: int| 0 <= i <= j < sorted.len() ==> sorted[i] <= sorted[j],
        sorted.to_multiset() == values.to_multiset(),
    ensures
        sorted.len() == values.len(),
        ({
            let r = summary_of(values);
            &&& r.min == sorted[0]
            &&& r.max == sorted[sorted.len() - 1]
            &&& at_hundredths(sorted, 50, r.p50 as int)
            &&& at_hundredths(sorted, 95, r.p95 as int)
            &&& at_hundredths(sorted, 99, r.p99 as int)
        }),
{
    lemma_in_order(values);
    lemma_in_order_holds(values);
    assert(ascending(sorted));
    assert(sorted == in_order(values));
    assert(values.contains(sorted[sorted.len() - 1]));
    assert(significand(P50) == 0x10_0000_0000_0000 && point(P50) == 53);
    assert(significand(P95) == 0x1e_6666_6666_6666 && point(P95) == 53);
    assert(significand(P99) == 0x1f_ae14_7ae1_47ae && point(P99) == 53);
    lemma_percentile_stands(sorted, P50, 50);
    lemma_percentile_stands(sorted, P95, 95);
    lemma_percentile_stands(sorted, P99, 99);
    assert forall|p: u64| in_reach(sorted.len(), p) implies percentile_of(sorted, p)
        <= sorted[sorted.len() - 1] by {
        law_percentile_between(sorted, p);
    }
    law_usual_percentiles_in_reach(sorted.len(), P50);
    law_usual_percentiles_in_reach(sorted.len(), P95);
    law_usual_percentiles_in_reach(sorted.len(), P99);
}

/// The median of an odd number of latencies is the one in the middle. That of an even number
/// is the mean of the two in the middle, cut to whole nanoseconds, where their sum is at
/// most 2^53.
pub proof fn law_median(values: Seq<u128>, sorted: Seq<u128>)
    requires
        1 <= values.len() <= 0x20_0000_0000_0001,
        forall|i: int| 0 <= i < values.len() ==> #[trigger] values[i] < 0x20_0000_0000_0000,
        forall|i: int, j: int| 0 <= i <= j < sorted.len() ==> sorted[i] <= sorted[j],
        sorted.to_multiset() == values.to_multiset(),
    ensures
        ({
            let n = values.len() as int;
            let median = summary_of(values).p50;
            &&& n % 2 == 1 ==> median == sorted[n / 2]
            &&& n % 2 == 0 && sorted[n / 2 - 1] + sorted[n / 2] <= 0x20_0000_0000_0000 ==> median
                == (sorted[n / 2 - 1] + sorted[n / 2]) / 2
        }),
{
    law_summary_figures(values, sorted);
    lemma_in_order(values);
    lemma_in_order_holds(values);
    let n = values.len();
    let m = (n - 1) as nat;
    let s = one();
    let half = pow2(1073);
    lemma_pow2_unfold(1074);
    lemma_pow2_pos(1073);
    lemma2_to64();
    lemma2_to64_rest();
    lemma_pow2_adds(52, 1021);
    assert(fraction(P50) == half) by {
        assert(significand(P50) == 0x10_0000_0000_0000 && point(P50) == 53);
    }
    law_percentiles_in_reach(n, P50);
    lemma_round53_exact(m, 1073);
    assert(half * m == m * half) by (nonlinear_arith);
    let at = rank(n, P50);
    assert(at == m * half);
    if n % 2 == 0 {
        let k = (n / 2 - 1) as nat;
        assert(at == s * k + half) by (nonlinear_arith)
            requires
                at == m * half,
                m == 2 * k + 1,
                s == 2 * half,
        ;
        lemma_fundamental_div_mod_converse(at as int, s as int, k as int, half as int);
        let lo = sorted[k as int] as nat;
        let hi = sorted[k as int + 1] as nat;
        assert(values.contains(sorted[k as int]) && values.contains(sorted[k as int + 1]));
        if lo + hi <= 0x20_0000_0000_0000 {
            let gap = (hi - lo) as nat;
            lemma_round53_small(lo);
            lemma_round53_small(hi);
            lemma_round53_small(gap);
            lemma_round53_exact(gap, 1073);
            let t = lo + hi;
            lemma_round53_exact(t, 1073);
            assert(lo * s + gap * half == t * half) by (nonlinear_arith)
                requires
                    s == 2 * half,
                    gap == hi - lo,
                    t == lo + hi,
            ;
            assert((t * half) / s == t / 2) by {
                assert(half * t == t * half && half * 2 == s) by (nonlinear_arith)
                    requires
                        s == 2 * half,
                ;
                lemma_div_multiples_vanish_quotient(half as int, t as int, 2);
            }
        }
    }
}

/// The mean is the sum of the latencies over their number, cut to whole nanoseconds: of
/// their number the low 32 bits count.
pub proof fn law_mean(values: Seq<u128>)
    requires
        values.len() % 0x1_0000_0000 > 0,
        values.fold_left(0int, |sum: int, v: u128| sum + v) < DURATION_LIMIT,
    ensures
        ({
            let sum = values.fold_left(0int, |sum: int, v: u128| sum + v);
            let n = values.len() % 0x1_0000_0000;
            let mean = summary_of(values).mean;
            &&& mean * n <= sum < (mean + 1) * n
            &&& values.len() < 0x1_0000_0000 ==> n == values.len()
        }),
{
    lemma_total_time_fold(values);
    let n = (values.len() % 0x1_0000_0000) as int;
    let total = total_time(values) as int;
    lemma_fundamental_div_mod(total, n);
    lemma_mod_bound(total, n);
    let q = total / n;
    assert(n * q == q * n && (q + 1) * n == q * n + n) by (nonlinear_arith);
    assert(0 <= q <= total) by (nonlinear_arith)
        requires
            n > 0,
            total >= 0,
            q == total / n,
    ;
}

proof fn lemma_total_time_fold(values: Seq<u128>)
    ensures
        total_time(values) == values.fold_left(0int, |sum: int, v: u128| sum + v),
    decreases values.len(),
{
    reveal_with_fuel(Seq::fold_left, 2);
    if values.len() > 0 {
        lemma_total_time_fold(values.drop_last());
    }
}

/// Latencies can be summarized when their sum is below 2^64 seconds and the low 32 bits of
/// their number are not all zero, or there are none. The summary of none is all zero.
pub proof fn law_can_summarize(values: Seq<u128>)
    ensures
        can_summarize(values) <==> {
            &&& values.fold_left(0int, |sum: int, v: u128| sum + v)
                < 18_446_744_073_709_551_616_000_000_000
            &&& values.len() == 0 || values.len() % 0x1_0000_0000 != 0
        },
        values.len() == 0 ==> summary_of(values) == (LatencySummary {
            mean: 0,
            p50: 0,
            p95: 0,
            p99: 0,
            min: 0,
            max: 0,
        }),
{
    lemma_total_time_fold(values);
}

/// A percentile stands where its number says: its rank is as many parts of the way from the
/// first value to the last, moved by rounding no more than one part in 2^52, and the figure
/// divides the gap around the rank as the rank does, but for five nanoseconds; where the
/// durations are below 2^43, it is cut to whole nanoseconds, but for a 256th of one. This is
/// of durations below 2^53 nanoseconds, and no more than 2^53 + 1 of them.
pub proof fn law_percentile_divides(sorted: Seq<u128>, p: u64)
    requires
        1 <= sorted.len() <= 0x20_0000_0000_0001,
        p <= ONE_BITS,
        ascending(sorted),
        sorted.last() < 0x20_0000_0000_0000,
    ensures
        ({
            let way = fraction(p) * (sorted.len() - 1);
            let at = rank(sorted.len(), p) as int;
            let lower = at / one() as int;
            let weight = at % one() as int;
            let figure = percentile_of(sorted, p) as int;
            &&& 0x10_0000_0000_0000 * (at - way) <= way
            &&& 0x10_0000_0000_0000 * (way - at) <= way
            &&& 0 <= lower < sorted.len()
            &&& weight == 0 ==> figure == sorted[lower]
            &&& weight > 0 ==> lower + 1 < sorted.len() && {
                let off = (figure - sorted[lower]) * one() - (sorted[lower + 1] - sorted[lower])
                    * weight;
                &&& -5 * one() <= off <= 5 * one()
                &&& sorted.last() < 0x800_0000_0000 ==> -257 * one() <= 256 * off <= one()
            }
        }),
{
    let n = sorted.len();
    let m = (n - 1) as nat;
    law_percentiles_in_reach(n, p);
    lemma_rank(n, p);
    lemma_pow2_pos(FINEST as nat);
    law_round53_near(fraction(p) * m);
    let at = rank(n, p);
    lemma_mod_bound(at as int, one() as int);
    if n == 1 {
        lemma_round53_small(0);
        assert(fraction(p) * m == 0) by (nonlinear_arith)
            requires
                m == 0,
        ;
        lemma_basic_div(0, one() as int);
        lemma_small_mod(0, one());
    } else if at % one() > 0 {
        let lower = (at / one()) as int;
        lemma_interpolated_near(sorted[lower] as nat, sorted[lower + 1] as nat, at % one());
    }
}

/// The bits of a number name it: as many parts of one as its significand says, each the
/// fraction of one that its point says. So a half, a quarter and the others are told by
/// their exponents, and what follows the bits of a number is the next larger one.
pub proof fn law_fraction_bits(p: u64)
    requires
        p < ONE_BITS,
    ensures
        fraction(p) < fraction((p + 1) as u64),
        fraction(P50) * 2 == one(),
        fraction(ONE_BITS) == one(),
        fraction(0) == 0,
        100 * fraction(P95) < 95 * one() < 100 * fraction((P95 + 1) as u64),
        100 * fraction(P99) < 99 * one() < 100 * fraction((P99 + 1) as u64),
{
    lemma_fraction(0);
    lemma_fraction(ONE_BITS);
    lemma2_to64();
    lemma2_to64_rest();
    let z = pow2(1021);
    lemma_pow2_pos(1021);
    lemma_pow2_adds(53, 1021);
    let s = one();
    assert(s == 0x20_0000_0000_0000 * z);
    assert(significand(P50) == 0x10_0000_0000_0000 && point(P50) == 53);
    assert(significand(P95) == 0x1e_6666_6666_6666 && point(P95) == 53);
    assert(significand(P99) == 0x1f_ae14_7ae1_47ae && point(P99) == 53);
    let q95: u64 = 0x3fee_6666_6666_6667;
    let q99: u64 = 0x3fef_ae14_7ae1_47af;
    assert(significand(q95) == 0x1e_6666_6666_6667 && point(q95) == 53);
    assert(significand(q99) == 0x1f_ae14_7ae1_47af && point(q99) == 53);
    assert((P95 + 1) as u64 == q95 && (P99 + 1) as u64 == q99);
    assert(fraction(P99) == 0x1f_ae14_7ae1_47ae * z && fraction(q99) == 0x1f_ae14_7ae1_47af * z);
    let unit: u64 = 0x10_0000_0000_0000;
    let next = (p + 1) as u64;
    let e = p / unit;
    let a = significand(p);
    let b = significand(next);
    assert(p == e * unit + p % unit && e <= 0x3fe) by (nonlinear_arith)
        requires
            p < 0x3ff0_0000_0000_0000,
            unit == 0x10_0000_0000_0000u64,
            e == p / unit,
    ;
    if p % unit + 1 < unit {
        assert(next / unit == e && next % unit == p % unit + 1) by (nonlinear_arith)
            requires
                next == e * unit + (p % unit + 1),
                p % unit + 1 < unit,
                unit == 0x10_0000_0000_0000u64,
        ;
        assert(point(next) == point(p) && b == a + 1);
        let w = pow2((FINEST - point(p)) as nat);
        lemma_pow2_pos((FINEST - point(p)) as nat);
        assert(a * w < b * w) by (nonlinear_arith)
            requires
                b == a + 1,
                w > 0,
        ;
    } else {
        assert(next / unit == e + 1 && next % unit == 0) by (nonlinear_arith)
            requires
                next == (e + 1) * unit,
                unit == 0x10_0000_0000_0000u64,
        ;
        let w = pow2((FINEST - point(p)) as nat);
        lemma_pow2_pos((FINEST - point(p)) as nat);
        assert(b == unit);
        if e == 0 {
            assert(point(next) == 1074 && point(p) == 1074);
            assert(a == unit - 1);
            assert(a * w < b * w) by (nonlinear_arith)
                requires
                    b == a + 1,
                    w > 0,
            ;
        } else {
            assert(a == 2 * unit - 1);
            assert(point(next) + 1 == point(p));
            lemma_pow2_unfold((FINEST - point(next)) as nat);
            assert(a * w < b * (2 * w)) by (nonlinear_arith)
                requires
                    a == 2 * b - 1,
                    w > 0,
            ;
        }
    }
}

/// The percentiles of a summary are those of the latencies in ascending order, whatever the
/// latencies are.
pub proof fn law_summary_percentiles(values: Seq<u128>, sorted: Seq<u128>)
    requires
        values.len() > 0,
        forall|i: int, j: int| 0 <= i <= j < sorted.len() ==> sorted[i] <= sorted[j],
        sorted.to_multiset() == values.to_multiset(),
    ensures
        ({
            let r = summary_of(values);
            &&& r.min == sorted[0] && r.max == sorted[sorted.len() - 1]
            &&& r.p50 == percentile_of(sorted, 0x3fe0_0000_0000_0000) as u128
            &&& r.p95 == percentile_of(sorted, 0x3fee_6666_6666_6666) as u128
            &&& r.p99 == percentile_of(sorted, 0x3fef_ae14_7ae1_47ae) as u128
        }),
{
    lemma_in_order(values);
    assert(ascending(sorted));
    assert(sorted == in_order(values));
}

/// The percentile of one value is that value, and so is that of values which are all the same,
/// where it is below 2^53 nanoseconds.
pub proof fn law_percentile_of_equal(sorted: Seq<u128>, p: u64, value: u128)
    requires
        1 <= sorted.len(),
        forall|i: int| 0 <= i < sorted.len() ==> #[trigger] sorted[i] == value,
    ensures
        sorted.len() == 1 ==> percentile_of(sorted, p) == value,
        p > ONE_BITS ==> percentile_of(sorted, p) == value,
        in_reach(sorted.len(), p) && value < 0x20_0000_0000_0000 ==> percentile_of(sorted, p)
            == value,
{
    assert(sorted[0] == value);
    if in_reach(sorted.len(), p) && value < 0x20_0000_0000_0000 {
        assert(sorted[sorted.len() - 1] == value);
        law_percentile_between(sorted, p);
    }
}

} // verus!
