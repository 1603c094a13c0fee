//! Decimal numbers as text: what a flag or a log field denotes, and how a count
//! is printed.
use crate::text::chars_of;
use vstd::prelude::*;
use vstd::string::*;

verus! {

pub open spec fn is_digit(c: char) -> bool {
    '0' <= c <= '9'
}

pub open spec fn digit_value(c: char) -> nat {
    (c as u32 - '0' as u32) as nat
}

/// Whether `s` holds nothing but decimal digits.
pub open spec fn all_digits(s: Seq<char>) -> bool {
    forall|i: int| 0 <= i < s.len() ==> is_digit(#[trigger] s[i])
}

/// The number that a run of decimal digits denotes.
pub open spec fn digits_value(s: Seq<char>) -> nat
    decreases s.len(),
{
    if s.len() == 0 {
        0
    } else {
        10 * digits_value(s.drop_last()) + digit_value(s.last())
    }
}

/// The number that a non-empty run of digits denotes, where it is at most `limit`.
pub open spec fn plain_number(s: Seq<char>, limit: nat) -> Option<nat> {
    if s.len() > 0 && all_digits(s) && digits_value(s) <= limit {
        Some(digits_value(s))
    } else {
        None
    }
}

/// The unsigned number that `s` denotes: digits, perhaps behind a plus sign, with
/// a value of at most `limit`.
pub open spec fn unsigned_number(s: Seq<char>, limit: nat) -> Option<nat> {
    if s.len() > 0 && s[0] == '+' {
        plain_number(s.skip(1), limit)
    } else {
        plain_number(s, limit)
    }
}

/// The signed number that `s` denotes: digits, perhaps behind a sign, with a
/// value from `-limit - 1` to `limit`.
pub open spec fn signed_number(s: Seq<char>, limit: nat) -> Option<int> {
    if s.len() > 0 && s[0] == '-' {
        match plain_number(s.skip(1), limit + 1) {
            Some(n) => Some(-(n as int)),
            None => None,
        }
    } else {
        match unsigned_number(s, limit) {
            Some(n) => Some(n as int),
            None => None,
        }
    }
}

proof fn lemma_digits_value_grows(s: Seq<char>, i: int)
    requires
        0 <= i <= s.len(),
    ensures
        digits_value(s.take(i)) <= digits_value(s),
    decreases s.len() - i,
{
    if i < s.len() {
        lemma_digits_value_grows(s, i + 1);
        assert(s.take(i + 1).drop_last() =~= s.take(i));
    } else {
        assert(s.take(i) =~= s);
    }
}

fn plain_from(chars: &Vec<char>, from: usize, limit: u128) -> (r: Option<u128>)
    requires
        from <= chars@.len(),
        limit <= 0x1_0000_0000_0000_0000,
    ensures
        match r {
            Some(n) => plain_number(chars@.skip(from as int), limit as nat) == Some(n as nat),
            None => plain_number(chars@.skip(from as int), limit as nat) is None,
        },
        r matches Some(n) ==> n <= limit,
{
    let ghost s = chars@.skip(from as int);
    if from == chars.len() {
        return None;
    }
    let mut value: u128 = 0;
    let mut i: usize = from;
    assert(s.take(0) =~= seq![]);
    while i < chars.len()
        invariant
            from <= i <= chars@.len(),
            s == chars@.skip(from as int),
            limit <= 0x1_0000_0000_0000_0000,
            value <= limit,
            value == digits_value(s.take(i - from)),
            forall|k: int| 0 <= k < i - from ==> is_digit(#[trigger] s[k]),
        decreases chars@.len() - i,
    {
        let c = chars[i];
        assert(s[i - from] == c);
        if c < '0' || '9' < c {
            return None;
        }
        let digit: u128 = (c as u32 - '0' as u32) as u128;
        assert(s.take(i - from + 1).drop_last() =~= s.take(i - from));
        value = 10 * value + digit;
        if value > limit {
            proof {
                lemma_digits_value_grows(s, i - from + 1);
            }
            return None;
        }
        i = i + 1;
    }
    assert(s.take(i - from) =~= s);
    Some(value)
}

fn unsigned_of(chars: &Vec<char>, limit: u128) -> (r: Option<u128>)
    requires
        limit <= 0xffff_ffff_ffff_ffff,
    ensures
        match r {
            Some(n) => unsigned_number(chars@, limit as nat) == Some(n as nat),
            None => unsigned_number(chars@, limit as nat) is None,
        },
        r matches Some(n) ==> n <= limit,
{
    if chars.len() > 0 && chars[0] == '+' {
        plain_from(chars, 1, limit)
    } else {
        assert(chars@.skip(0) =~= chars@);
        plain_from(chars, 0, limit)
    }
}

fn signed_of(chars: &Vec<char>, limit: u128) -> (r: Option<i128>)
    requires
        limit <= 0x7fff_ffff_ffff_ffff,
    ensures
        match r {
            Some(n) => signed_number(chars@, limit as nat) == Some(n as int),
            None => signed_number(chars@, limit as nat) is None,
        },
        r matches Some(n) ==> -limit - 1 <= n <= limit,
{
    if chars.len() > 0 && chars[0] == '-' {
        match plain_from(chars, 1, limit + 1) {
            Some(n) => Some(-(n as i128)),
            None => None,
        }
    } else {
        match unsigned_of(chars, limit) {
            Some(n) => Some(n as i128),
            None => None,
        }
    }
}

/// Reads a `usize`.
pub fn read_usize(s: &str) -> (r: Option<usize>)
    ensures
        match r {
            Some(n) => unsigned_number(s@, usize::MAX as nat) == Some(n as nat),
            None => unsigned_number(s@, usize::MAX as nat) is None,
        },
{
    match unsigned_of(&chars_of(s), usize::MAX as u128) {
        Some(n) => Some(n as usize),
        None => None,
    }
}

/// Reads a `u64`.
pub fn read_u64(s: &str) -> (r: Option<u64>)
    ensures
        match r {
            Some(n) => unsigned_number(s@, u64::MAX as nat) == Some(n as nat),
            None => unsigned_number(s@, u64::MAX as nat) is None,
        },
{
    match unsigned_of(&chars_of(s), u64::MAX as u128) {
        Some(n) => Some(n as u64),
        None => None,
    }
}

/// Reads a `u16`.
pub fn read_u16(s: &str) -> (r: Option<u16>)
    ensures
        match r {
            Some(n) => unsigned_number(s@, u16::MAX as nat) == Some(n as nat),
            None => unsigned_number(s@, u16::MAX as nat) is None,
        },
{
    match unsigned_of(&chars_of(s), u16::MAX as u128) {
        Some(n) => Some(n as u16),
        None => None,
    }
}

/// Reads an `i32`.
pub fn read_i32(s: &str) -> (r: Option<i32>)
    ensures
        match r {
            Some(n) => signed_number(s@, i32::MAX as nat) == Some(n as int),
            None => signed_number(s@, i32::MAX as nat) is None,
        },
{
    match signed_of(&chars_of(s), i32::MAX as u128) {
        Some(n) => Some(n as i32),
        None => None,
    }
}

/// Reads an `i64`.
pub fn read_i64(s: &str) -> (r: Option<i64>)
    ensures
        match r {
            Some(n) => signed_number(s@, i64::MAX as nat) == Some(n as int),
            None => signed_number(s@, i64::MAX as nat) is None,
        },
{
    match signed_of(&chars_of(s), i64::MAX as u128) {
        Some(n) => Some(n as i64),
        None => None,
    }
}

/// The decimal digits of `n`, without leading zeros.
pub open spec fn decimal(n: nat) -> Seq<char>
    decreases n,
{
    let last = ('0' as u32 + n % 10) as char;
    if n < 10 {
        seq![last]
    } else {
        decimal(n / 10).push(last)
    }
}

/// The decimal digits of `n`, behind a minus sign where it is negative.
pub open spec fn signed_decimal(n: int) -> Seq<char> {
    if n < 0 {
        seq!['-'] + decimal((-n) as nat)
    } else {
        decimal(n as nat)
    }
}

fn digit_char(d: u64) -> (r: char)
    requires
        d < 10,
    ensures
        r == ('0' as u32 + d) as char,
{
    match d {
        0 => '0',
        1 => '1',
        2 => '2',
        3 => '3',
        4 => '4',
        5 => '5',
        6 => '6',
        7 => '7',
        8 => '8',
        _ => '9',
    }
}

/// Prints an unsigned number.
pub fn decimal_text(n: u64) -> (r: String)
    ensures
        r@ == decimal(n as nat),
    decreases n,
{
    let last = digit_char(n % 10);
    let mut out = if n < 10 {
        String::new()
    } else {
        decimal_text(n / 10)
    };
    out.push(last);
    out
}

/// Prints a count or a size.
pub fn count_text(n: usize) -> (r: String)
    ensures
        r@ == decimal(n as nat),
{
    decimal_text(n as u64)
}

/// Prints a signed number.
pub fn signed_text(n: i64) -> (r: String)
    ensures
        r@ == signed_decimal(n as int),
{
    if n < 0 {
        let mut out = String::new();
        out.push('-');
        let magnitude: u64 = (-(n as i128)) as u64;
        out.append(decimal_text(magnitude).as_str());
        assert(out@ =~= signed_decimal(n as int));
        out
    } else {
        decimal_text(n as u64)
    }
}

proof fn lemma_decimal_digits(n: nat)
    ensures
        decimal(n).len() > 0,
        all_digits(decimal(n)),
        digits_value(decimal(n)) == n,
    decreases n,
{
    let last = ('0' as u32 + n % 10) as char;
    if n < 10 {
        assert(decimal(n).drop_last() =~= seq![]);
        assert(digits_value(decimal(n).drop_last()) == 0);
    } else {
        lemma_decimal_digits(n / 10);
        assert(decimal(n).drop_last() =~= decimal(n / 10));
    }
    assert(decimal(n).last() == last);
    assert(digit_value(last) == n % 10);
}

/// Reading what was printed gives the number back, for every limit that it keeps.
pub proof fn law_read_undoes_print(n: nat, limit: nat)
    requires
        n <= limit,
    ensures
        unsigned_number(decimal(n), limit) == Some(n),
        signed_number(decimal(n), limit) == Some(n as int),
        signed_number(signed_decimal(-(n as int)), limit) == Some(-(n as int)),
{
    lemma_decimal_digits(n);
    assert(is_digit(decimal(n)[0]));
    if n > 0 {
        assert(signed_decimal(-(n as int)).skip(1) =~= decimal(n));
    }
}

/// A text of digits stands for the number that its digits make, each worth ten of the one
/// behind it. It is read up to the limit and not beyond, with or without a plus sign;
/// behind a minus sign, where one is allowed, the limit is one more.
pub proof fn law_digits_read(s: Seq<char>, limit: nat)
    requires
        s.len() > 0,
        forall|i: int| 0 <= i < s.len() ==> '0' <= #[trigger] s[i] <= '9',
    ensures
        ({
            let n = s.fold_left(0int, |v: int, c: char| 10 * v + (c as int - '0' as int));
            &&& unsigned_number(s, limit) == if n <= limit {
                Some(n as nat)
            } else {
                None
            }
            &&& unsigned_number(seq!['+'] + s, limit) == unsigned_number(s, limit)
            &&& unsigned_number(seq!['-'] + s, limit) is None
            &&& signed_number(s, limit) == if n <= limit {
                Some(n)
            } else {
                None
            }
            &&& signed_number(seq!['+'] + s, limit) == signed_number(s, limit)
            &&& signed_number(seq!['-'] + s, limit) == if n <= limit + 1 {
                Some(-n)
            } else {
                None
            }
        }),
{
    lemma_digits_fold(s);
    let plus = seq!['+'] + s;
    let minus = seq!['-'] + s;
    assert(plus.skip(1) =~= s && minus.skip(1) =~= s);
    assert(s[0] != '+' && s[0] != '-') by {
        assert('0' <= s[0] <= '9');
    }
    assert(minus[0] == '-' && !is_digit(minus[0]));
}

proof fn lemma_digits_fold(s: Seq<char>)
    requires
        forall|i: int| 0 <= i < s.len() ==> '0' <= #[trigger] s[i] <= '9',
    ensures
        all_digits(s),
        digits_value(s) == s.fold_left(0int, |v: int, c: char| 10 * v + (c as int - '0' as int)),
    decreases s.len(),
{
    if s.len() > 0 {
        let rest = s.drop_last();
        assert forall|i: int| 0 <= i < rest.len() implies '0' <= #[trigger] rest[i] <= '9' by {
            assert(rest[i] == s[i]);
        }
        lemma_digits_fold(rest);
        assert('0' <= s[s.len() - 1] <= '9');
        reveal_with_fuel(Seq::fold_left, 2);
    }
}

/// Nothing else is read as a number: what is read is digits, at least one of them, behind
/// a plus sign or none, or behind a minus sign where one is allowed.
pub proof fn law_only_digits_read(s: Seq<char>, limit: nat)
    ensures
        unsigned_number(s, limit) is Some ==> s.len() > 0 && (s[0] == '+' || '0' <= s[0] <= '9'),
        signed_number(s, limit) is Some ==> s.len() > 0 && (s[0] == '+' || s[0] == '-' || '0'
            <= s[0] <= '9'),
        unsigned_number(s, limit) is Some || signed_number(s, limit) is Some ==> '0' <= s.last()
            <= '9' && forall|i: int| 0 < i < s.len() ==> '0' <= #[trigger] s[i] <= '9',
{
    if unsigned_number(s, limit) is Some || signed_number(s, limit) is Some {
        let t = if s.len() > 0 && (s[0] == '+' || s[0] == '-') {
            s.skip(1)
        } else {
            s
        };
        assert(all_digits(t) && t.len() > 0);
        assert(is_digit(t[0]));
        assert(t[t.len() - 1] == s.last());
        assert(is_digit(t[t.len() - 1]));
        assert forall|i: int| 0 < i < s.len() implies '0' <= #[trigger] s[i] <= '9' by {
            if t == s {
                assert(is_digit(t[i]));
            } else {
                assert(is_digit(t[i - 1]));
            }
        }
    }
}

/// A number is printed in digits, with no zero in front unless it is zero.
pub proof fn law_printed_digits(n: nat)
    ensures
        decimal(n).len() > 0,
        forall|i: int| 0 <= i < decimal(n).len() ==> '0' <= #[trigger] decimal(n)[i] <= '9',
        n > 0 ==> decimal(n)[0] != '0',
        n == 0 ==> decimal(n) == seq!['0'],
    decreases n,
{
    lemma_decimal_digits(n);
    assert forall|i: int| 0 <= i < decimal(n).len() implies '0' <= #[trigger] decimal(n)[i]
        <= '9' by {
        assert(is_digit(decimal(n)[i]));
    }
    if n >= 10 {
        law_printed_digits(n / 10);
        assert(decimal(n)[0] == decimal(n / 10)[0]);
    }
}

/// A number below zero is printed behind a minus sign, and any other without a sign; the
/// two are told apart, and no two numbers are printed alike.
pub proof fn law_signed_print(a: int, b: int)
    ensures
        signed_decimal(a).len() > 0,
        a < 0 <==> signed_decimal(a)[0] == '-',
        signed_decimal(a) == signed_decimal(b) ==> a == b,
{
    law_printed_digits(if a < 0 {
        (-a) as nat
    } else {
        a as nat
    });
    let limit = if a < 0 && b < 0 {
        (-a - b) as nat
    } else if a < 0 {
        (b - a) as nat
    } else if b < 0 {
        (a - b) as nat
    } else {
        (a + b) as nat
    };
    lemma_signed_read(a, limit);
    lemma_signed_read(b, limit);
}

pub proof fn lemma_signed_read(n: int, limit: nat)
    requires
        -limit - 1 <= n <= limit,
    ensures
        signed_number(signed_decimal(n), limit) == Some(n),
{
    if n < 0 {
        lemma_decimal_digits((-n) as nat);
        assert(signed_decimal(n).skip(1) =~= decimal((-n) as nat));
    } else {
        law_read_undoes_print(n as nat, limit);
    }
}

/// Whether a text is read as this number.
#[verifier::opaque]
pub open spec fn reads_as(text: Seq<char>, n: nat) -> bool {
    unsigned_number(text, n) == Some(n) && text.len() > 0 && text[0] != '+'
}

/// Whether a text is read as this number, which may be below zero.
#[verifier::opaque]
pub open spec fn reads_as_signed(text: Seq<char>, n: int) -> bool {
    signed_number(text, if n < 0 {
        (-n) as nat
    } else {
        n as nat
    }) == Some(n) && text.len() > 0 && text[0] != '+'
}

/// A number is read as itself from how it is printed.
pub proof fn law_prints_read(n: nat, m: int)
    ensures
        reads_as(decimal(n), n),
        reads_as_signed(signed_decimal(m), m),
{
    reveal(reads_as);
    reveal(reads_as_signed);
    law_read_undoes_print(n, n);
    law_printed_digits(n);
    assert('0' <= decimal(n)[0] <= '9');
    let k = if m < 0 {
        (-m) as nat
    } else {
        m as nat
    };
    lemma_signed_read(m, k);
    law_printed_digits(k);
    assert('0' <= decimal(k)[0] <= '9');
}

} // verus!
