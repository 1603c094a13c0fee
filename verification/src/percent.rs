//! Percentages. A percentage is a double-precision number between 0 and 100; it
//! is held by its bits, and the rules work on the integers that it rounds to.
use crate::binary64::{
    keep53, law_round53_near, lemma_round53_bound, lemma_round53_exact, lemma_round53_monotone,
    point, round53, significand, significand_and_point, SIGNIFICAND,
};
use crate::error::{outcome, CliError, UsageError};
use vstd::arithmetic::div_mod::*;
use vstd::arithmetic::power2::*;
use vstd::prelude::*;
use vstd::string::*;

verus! {

/// The bits of 100.
pub const HUNDRED_BITS: u64 = 0x4059_0000_0000_0000;

/// The bits of negative zero, which compares equal to zero.
pub const NEGATIVE_ZERO_BITS: u64 = 0x8000_0000_0000_0000;

/// Ten thousand basis points are the whole.
pub const WHOLE: usize = 10_000;

/// Whether the double-precision number with these bits is between 0 and 100.
/// The bits of numbers that are not negative are ordered as the numbers are.
pub open spec fn percent_bits(bits: u64) -> bool {
    bits <= HUNDRED_BITS || bits == NEGATIVE_ZERO_BITS
}

/// Whether the percentage is more than zero.
pub open spec fn percent_positive(bits: u64) -> bool {
    0 < bits <= HUNDRED_BITS
}

/// The integer nearest to `n / 2^k`, the upper one where two are as near.
pub open spec fn nearest(n: nat, k: nat) -> nat {
    (2 * n + pow2(k)) as nat / pow2(k + 1)
}

/// The integer nearest to a percentage times `factor`, in double-precision
/// arithmetic.
pub open spec fn scaled(bits: u64, factor: nat) -> nat {
    if bits == NEGATIVE_ZERO_BITS {
        0
    } else {
        nearest(round53(significand(bits) * factor), point(bits))
    }
}

/// A percentage in basis points.
pub open spec fn basis_points(bits: u64) -> nat {
    scaled(bits, 100)
}

/// A percentage in thousandths.
pub open spec fn thousandths(bits: u64) -> nat {
    scaled(bits, 1000)
}

proof fn lemma_percent_bits(bits: u64)
    requires
        bits <= HUNDRED_BITS,
    ensures
        46 <= point(bits) <= 1074,
        significand(bits) < SIGNIFICAND,
        significand(bits) <= 100 * pow2(point(bits)),
{
    let unit: u64 = 0x10_0000_0000_0000;
    let e = bits / unit;
    assert(e <= 0x405 && bits == e * unit + bits % unit) by (nonlinear_arith)
        requires
            bits <= 0x4059_0000_0000_0000,
            unit == 0x10_0000_0000_0000u64,
            e == bits / unit,
    ;
    let k = point(bits);
    lemma2_to64();
    lemma2_to64_rest();
    if k > 46 {
        if k > 47 {
            lemma_pow2_strictly_increases(47, k);
        }
    }
}

proof fn lemma_nearest_zero(n: nat, k: nat)
    requires
        2 * n < pow2(k),
    ensures
        nearest(n, k) == 0,
{
    lemma_pow2_unfold(k + 1);
    lemma_basic_div((2 * n + pow2(k)) as int, pow2(k + 1) as int);
}

/// A percentage.
#[derive(Debug, Clone, Copy)]
pub struct Percent {
    bits: u64,
}

impl View for Percent {
    type V = u64;

    closed spec fn view(&self) -> u64 {
        self.bits
    }
}

impl Percent {
    #[verifier::type_invariant]
    spec fn valid(self) -> bool {
        percent_bits(self.bits)
    }

    /// No percent.
    pub fn zero() -> (r: Percent)
        ensures
            r@ == 0,
    {
        Percent { bits: 0 }
    }

    /// The percentage with these bits, if the number is between 0 and 100.
    pub fn from_bits(bits: u64) -> (r: Option<Percent>)
        ensures
            match r {
                Some(p) => percent_bits(bits) && p@ == bits,
                None => !percent_bits(bits),
            },
    {
        if bits <= HUNDRED_BITS || bits == NEGATIVE_ZERO_BITS {
            Some(Percent { bits })
        } else {
            None
        }
    }

    /// The bits of the number.
    pub fn bits(&self) -> (r: u64)
        ensures
            r == self@,
            percent_bits(r),
    {
        proof {
            use_type_invariant(self);
        }
        self.bits
    }

    /// Whether it is more than zero.
    pub fn is_positive(&self) -> (r: bool)
        ensures
            r == percent_positive(self@),
    {
        0 < self.bits && self.bits <= HUNDRED_BITS
    }

    fn times(&self, factor: u128) -> (r: usize)
        requires
            factor <= 1000,
        ensures
            r == scaled(self@, factor as nat),
            r <= 100 * factor,
    {
        proof {
            use_type_invariant(self);
        }
        let bits: u64 = self.bits;
        if bits == NEGATIVE_ZERO_BITS {
            return 0;
        }
        let (m, k) = significand_and_point(bits);
        proof {
            lemma_percent_bits(bits);
            lemma_scaled_bound(bits, factor as nat);
        }
        assert(m * factor <= 0x20_0000_0000_0000 * 1000) by (nonlinear_arith)
            requires
                0 <= m <= 0x20_0000_0000_0000,
                0 <= factor <= 1000,
        ;
        let p: u128 = keep53(m as u128 * factor);
        proof {
            lemma_round53_bound((m * factor) as nat);
            lemma2_to64();
            lemma2_to64_rest();
        }
        if k >= 66 {
            proof {
                lemma_pow2_adds(64, 2);
                if k > 66 {
                    lemma_pow2_strictly_increases(66, k as nat);
                }
                lemma_nearest_zero(p as nat, k as nat);
            }
            return 0;
        }
        let mut half: u128 = 1;
        let mut i: u64 = 0;
        while i < k
            invariant
                i <= k < 66,
                half == pow2(i as nat),
                half <= 0x4_0000_0000_0000_0000,
            decreases k - i,
        {
            proof {
                lemma_pow2_unfold((i + 1) as nat);
                lemma2_to64();
                lemma_pow2_adds(64, 2);
                if i + 1 < 66 {
                    lemma_pow2_strictly_increases((i + 1) as nat, 66);
                }
            }
            half = half * 2;
            i = i + 1;
        }
        proof {
            lemma_pow2_unfold((k + 1) as nat);
        }
        ((2 * p + half) / (2 * half)) as usize
    }

    /// In basis points.
    pub fn basis_points(&self) -> (r: usize)
        ensures
            r == basis_points(self@),
            r <= WHOLE,
    {
        self.times(100)
    }

    /// In thousandths.
    pub fn thousandths(&self) -> (r: usize)
        ensures
            r == thousandths(self@),
    {
        self.times(1000)
    }
}

proof fn lemma_scaled_bound(bits: u64, factor: nat)
    requires
        percent_bits(bits),
        factor <= 1000,
    ensures
        scaled(bits, factor) <= 100 * factor,
{
    if bits != NEGATIVE_ZERO_BITS {
        lemma_percent_bits(bits);
        let k = point(bits);
        let u = pow2(k);
        let m = significand(bits);
        let most = 100 * factor;
        assert(m * factor <= most * u) by (nonlinear_arith)
            requires
                m <= 100 * u,
                most == 100 * factor,
        ;
        lemma_round53_monotone(m * factor, most * u);
        lemma_round53_exact(most, k);
        let p = round53(m * factor);
        lemma_pow2_unfold(k + 1);
        lemma_pow2_pos(k);
        assert((2 * p + u) / (2 * u) <= most) by (nonlinear_arith)
            requires
                p <= most * u,
                u > 0,
        ;
    }
}

/// No percentage is more than the whole.
pub proof fn law_basis_points_at_most_whole(bits: u64)
    requires
        percent_bits(bits),
    ensures
        basis_points(bits) <= WHOLE,
{
    lemma_scaled_bound(bits, 100);
}

/// What a percentage is read from: the bits of the number that its text denotes,
/// if it denotes one.
pub open spec fn percent_of(value: Seq<char>, number: Option<u64>) -> Result<
    u64,
    UsageError<Seq<char>>,
> {
    match number {
        None => Err(UsageError::NotANumber(value)),
        Some(bits) => if percent_bits(bits) {
            Ok(bits)
        } else {
            Err(UsageError::PercentOutOfRange)
        },
    }
}

/// Checks a percentage that was written as `value`; `number` holds the bits of
/// what the text denotes as a double-precision number.
pub fn parse_percent(value: &str, number: Option<u64>) -> (r: Result<Percent, CliError>)
    ensures
        outcome(r) == percent_of(value@, number),
{
    match number {
        None => Err(UsageError::NotANumber(value.to_owned())),
        Some(bits) => match Percent::from_bits(bits) {
            Some(p) => Ok(p),
            None => Err(UsageError::PercentOutOfRange),
        },
    }
}

/// Whether the request with this index, counted from one, is turned away where
/// `points` basis points of the requests are.
pub open spec fn turns_away(index: nat, points: nat) -> bool {
    let product = if index * points > usize::MAX {
        usize::MAX as nat
    } else {
        index * points
    };
    if points == 0 {
        false
    } else if points >= WHOLE {
        true
    } else {
        product % (WHOLE as nat) < points
    }
}

/// Whether the request with this index is turned away.
pub fn should_reject_by_percent(request_index: usize, percent: Percent) -> (r: bool)
    ensures
        r == turns_away(request_index as nat, basis_points(percent@)),
{
    let points: usize = percent.basis_points();
    if points == 0 {
        return false;
    }
    if points >= WHOLE {
        return true;
    }
    let product: usize = match request_index.checked_mul(points) {
        Some(n) => n,
        None => usize::MAX,
    };
    product % WHOLE < points
}

/// How many of the first `n` requests are turned away.
pub open spec fn turned_away(n: nat, points: nat) -> nat
    decreases n,
{
    if n == 0 {
        0
    } else {
        turned_away((n - 1) as nat, points) + if turns_away(n, points) {
            1nat
        } else {
            0nat
        }
    }
}

/// Of the first `n` requests, exactly the percentage is turned away, rounded
/// down.
pub proof fn law_turned_away(n: nat, points: nat)
    requires
        points <= WHOLE,
        n * points <= usize::MAX,
    ensures
        turned_away(n, points) == n * points / WHOLE as nat,
    decreases n,
{
    let w: nat = 10_000;
    if n == 0 {
        assert(n * points == 0) by (nonlinear_arith)
            requires
                n == 0,
        ;
    } else {
        let before = (n - 1) as nat;
        assert(n * points == before * points + points) by (nonlinear_arith)
            requires
                before == n - 1,
        ;
        law_turned_away(before, points);
        let p = before * points;
        lemma_fundamental_div_mod(p as int, w as int);
        lemma_fundamental_div_mod((p + points) as int, w as int);
    }
}

/// What the bits of a number say: those of 2^52 and below stand for a percentage exactly when
/// the number, its significand over the power of two that its point names, is at most a
/// hundred, and the percentage is above zero exactly when the significand is. No other bits
/// do, but for those of the zero with a minus sign.
pub proof fn law_percent_range(bits: u64)
    ensures
        bits <= 0x4330_0000_0000_0000 ==> (percent_bits(bits) <==> significand(bits) <= 100 * pow2(
            point(bits),
        )),
        bits <= 0x4330_0000_0000_0000 && percent_bits(bits) ==> (percent_positive(bits)
            <==> significand(bits) > 0),
        bits > 0x4330_0000_0000_0000 ==> (percent_bits(bits) <==> bits == 0x8000_0000_0000_0000)
            && !percent_positive(bits),
{
    if bits <= HUNDRED_BITS {
        lemma_percent_bits(bits);
        let unit: u64 = 0x10_0000_0000_0000;
        assert(bits > 0 ==> significand(bits) > 0);
    } else if bits <= 0x4330_0000_0000_0000 {
        let unit: u64 = 0x10_0000_0000_0000;
        let e = bits / unit;
        assert(0x405 <= e <= 0x433 && bits == e * unit + bits % unit) by (nonlinear_arith)
            requires
                0x4059_0000_0000_0000 < bits <= 0x4330_0000_0000_0000,
                unit == 0x10_0000_0000_0000u64,
                e == bits / unit,
        ;
        lemma2_to64();
        lemma2_to64_rest();
        if e == 0x405 {
            assert(point(bits) == 46);
            assert(pow2(46) == 0x4000_0000_0000);
        } else {
            assert(point(bits) <= 45);
            if point(bits) < 45 {
                lemma_pow2_strictly_increases(point(bits), 45);
            }
            assert(pow2(45) == 0x2000_0000_0000);
        }
    }
}

/// A percentage that is a whole number has exactly a hundred times as many hundredths, and a
/// thousand times as many thousandths.
pub proof fn law_whole_percent(bits: u64, n: nat)
    requires
        bits <= HUNDRED_BITS,
        significand(bits) == n * pow2(point(bits)),
    ensures
        n <= 100,
        basis_points(bits) == 100 * n,
        thousandths(bits) == 1000 * n,
{
    lemma_percent_bits(bits);
    let k = point(bits);
    let w = pow2(k);
    lemma_pow2_pos(k);
    assert(n <= 100) by (nonlinear_arith)
        requires
            n * w <= 100 * w,
            w > 0,
    ;
    lemma_round53_exact(100 * n, k);
    lemma_round53_exact(1000 * n, k);
    assert((n * w) * 100 == (100 * n) * w && (n * w) * 1000 == (1000 * n) * w) by (nonlinear_arith);
    lemma_nearest_whole(100 * n, k);
    lemma_nearest_whole(1000 * n, k);
}

proof fn lemma_nearest_whole(n: nat, k: nat)
    ensures
        nearest(n * pow2(k), k) == n,
{
    let w = pow2(k);
    lemma_pow2_pos(k);
    lemma_pow2_unfold(k + 1);
    let x = 2 * (n * w) + w;
    let d = 2 * w;
    assert(x == d * n + w) by (nonlinear_arith)
        requires
            x == 2 * (n * w) + w,
            d == 2 * w,
    ;
    lemma_fundamental_div_mod_converse(x as int, d as int, n as int, w as int);
}

/// The hundredths, and thousandths, of a percentage are the whole number nearest to a hundred,
/// or a thousand, times it, but for one part in 2^52 that double-precision arithmetic may
/// move the product by.
pub proof fn law_scaled_is_nearest(bits: u64)
    requires
        bits <= HUNDRED_BITS,
    ensures
        ({
            let w = pow2(point(bits)) as int;
            let x = 100 * significand(bits) as int;
            let y = 1000 * significand(bits) as int;
            let b = basis_points(bits) as int * w;
            let t = thousandths(bits) as int * w;
            &&& 0x10_0000_0000_0000 * (2 * (b - x) - w) <= 2 * x
            &&& 0x10_0000_0000_0000 * (2 * (x - b) - w) <= 2 * x
            &&& 0x10_0000_0000_0000 * (2 * (t - y) - w) <= 2 * y
            &&& 0x10_0000_0000_0000 * (2 * (y - t) - w) <= 2 * y
        }),
{
    let k = point(bits);
    let m = significand(bits);
    law_round53_near(m * 100);
    law_round53_near(m * 1000);
    lemma_nearest_near(round53(m * 100), k);
    lemma_nearest_near(round53(m * 1000), k);
}

proof fn lemma_nearest_near(n: nat, k: nat)
    ensures
        ({
            let w = pow2(k) as int;
            let r = nearest(n, k) as int * w;
            -w <= 2 * (r - n) <= w
        }),
{
    let w = pow2(k) as int;
    lemma_pow2_pos(k);
    lemma_pow2_unfold(k + 1);
    let x = 2 * n + w;
    let d = 2 * w;
    let q = x / d;
    lemma_fundamental_div_mod(x, d);
    lemma_mod_bound(x, d);
    assert(d * q == 2 * (q * w)) by (nonlinear_arith)
        requires
            d == 2 * w,
    ;
}

/// A share of none turns no request away, the whole turns each away, and where the product no
/// longer fits in the machine its greatest number stands for it.
pub proof fn law_turns_away_edges(index: nat, points: nat)
    ensures
        points == 0 ==> !turns_away(index, points),
        points >= 10_000 ==> turns_away(index, points),
        0 < points < 10_000 && index * points > usize::MAX ==> (turns_away(index, points)
            <==> usize::MAX as nat % 10_000 < points),
{
}

/// A value that is a number is taken exactly when its bits are those of a percentage, and then
/// as they are; one that is no number is named.
pub proof fn law_percent_of(value: Seq<char>, bits: u64)
    ensures
        percent_of(value, None) == Err::<u64, UsageError<Seq<char>>>(UsageError::NotANumber(value)),
        percent_of(value, Some(bits)) is Ok <==> percent_bits(bits),
        percent_of(value, Some(bits)) is Ok ==> percent_of(value, Some(bits))->Ok_0 == bits,
        percent_of(value, Some(bits)) is Err ==> percent_of(value, Some(bits))->Err_0
            == UsageError::<Seq<char>>::PercentOutOfRange,
{
}

/// Of the product, in double-precision arithmetic, of a percentage and a hundred, or a
/// thousand, the nearest whole number is taken, and of two that are equally near the greater.
pub proof fn law_scaled_rounds_up(bits: u64)
    requires
        bits <= HUNDRED_BITS,
    ensures
        ({
            let w = pow2(point(bits)) as int;
            let x = round53(100 * significand(bits)) as int;
            let y = round53(1000 * significand(bits)) as int;
            let b = basis_points(bits) as int;
            let t = thousandths(bits) as int;
            &&& 2 * (b * w) <= 2 * x + w < 2 * ((b + 1) * w)
            &&& 2 * (t * w) <= 2 * y + w < 2 * ((t + 1) * w)
        }),
        basis_points(0x8000_0000_0000_0000) == 0,
        thousandths(0x8000_0000_0000_0000) == 0,
{
    let k = point(bits);
    lemma_nearest_up(round53(significand(bits) * 100), k);
    lemma_nearest_up(round53(significand(bits) * 1000), k);
}

proof fn lemma_nearest_up(n: nat, k: nat)
    ensures
        ({
            let w = pow2(k) as int;
            let r = nearest(n, k) as int;
            2 * (r * w) <= 2 * n + w < 2 * ((r + 1) * w)
        }),
{
    let w = pow2(k) as int;
    lemma_pow2_pos(k);
    lemma_pow2_unfold(k + 1);
    let x = 2 * n + w;
    let d = 2 * w;
    let q = x / d;
    lemma_fundamental_div_mod(x, d);
    lemma_mod_bound(x, d);
    assert(d * q == 2 * (q * w) && (q + 1) * w == q * w + w) by (nonlinear_arith)
        requires
            d == 2 * w,
    ;
}

} // verus!
