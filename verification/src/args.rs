//! Flags and their values: the parts that every subcommand's arguments share.
use crate::error::{outcome, CliError, UsageError};
use crate::number::{decimal, law_read_undoes_print, read_usize, unsigned_number};
use crate::text::{csv_parts, law_csv_concat, same, split_csv};
use vstd::prelude::*;
use vstd::string::*;

verus! {

/// Whether `flag` is one of two spellings.
pub fn is_either(flag: &str, a: &str, b: &str) -> (r: bool)
    ensures
        r == (flag@ == a@ || flag@ == b@),
{
    same(flag, a) || same(flag, b)
}

/// Whether `flag` asks for help.
pub open spec fn asks_help(flag: Seq<char>) -> bool {
    flag == "-h"@ || flag == "--help"@
}

/// Whether `flag` sets how often each scenario is repeated.
pub open spec fn sets_repeats(flag: Seq<char>) -> bool {
    flag == "-repeat"@ || flag == "--repeat"@ || flag == "-repeats"@ || flag == "--repeats"@
}

/// Whether `flag` sets how often each scenario is repeated.
pub fn is_repeats(flag: &str) -> (r: bool)
    ensures
        r == sets_repeats(flag@),
{
    is_either(flag, "-repeat", "--repeat") || is_either(flag, "-repeats", "--repeats")
}

/// Takes the argument at `at`, which is the value of `flag`.
pub fn next_arg(args: &Vec<String>, at: &mut usize, flag: &str) -> (r: Result<String, CliError>)
    ensures
        match r {
            Ok(value) => *old(at) < args@.len() && value@ == args.deep_view()[*old(at) as int]
                && *final(at) == *old(at) + 1,
            Err(e) => *old(at) >= args@.len() && e@ == UsageError::MissingValue(flag@)
                && *final(at) == *old(at),
        },
{
    if *at < args.len() {
        let value = args[*at].clone();
        *at = *at + 1;
        Ok(value)
    } else {
        Err(UsageError::MissingValue(flag.to_owned()))
    }
}

/// The positive number that `value` denotes.
pub open spec fn positive_number(value: Seq<char>, name: Seq<char>) -> Result<
    usize,
    UsageError<Seq<char>>,
> {
    match unsigned_number(value, usize::MAX as nat) {
        None => Err(UsageError::NotAnInteger(name, value)),
        Some(n) => if n == 0 {
            Err(UsageError::ZeroValue(name))
        } else {
            Ok(n as usize)
        },
    }
}

/// Reads one positive number.
pub fn parse_positive_usize(value: &str, name: &str) -> (r: Result<usize, CliError>)
    ensures
        outcome(r) == positive_number(value@, name@),
{
    match read_usize(value) {
        None => Err(UsageError::NotAnInteger(name.to_owned(), value.to_owned())),
        Some(n) => if n == 0 {
            Err(UsageError::ZeroValue(name.to_owned()))
        } else {
            Ok(n)
        },
    }
}

/// The positive numbers that `parts` denote, or what is wrong with the first of
/// them that denotes none.
pub open spec fn numbers_in(parts: Seq<Seq<char>>, name: Seq<char>) -> Result<
    Seq<usize>,
    UsageError<Seq<char>>,
>
    decreases parts.len(),
{
    if parts.len() == 0 {
        Ok(seq![])
    } else {
        match numbers_in(parts.drop_last(), name) {
            Err(e) => Err(e),
            Ok(head) => match unsigned_number(parts.last(), usize::MAX as nat) {
                None => Err(UsageError::NotAnInteger(name, parts.last())),
                Some(n) => if n == 0 {
                    Err(UsageError::ZeroInList(name))
                } else {
                    Ok(head.push(n as usize))
                },
            },
        }
    }
}

/// The positive numbers of a comma-separated list, of which there must be one.
pub open spec fn positive_numbers(value: Seq<char>, name: Seq<char>) -> Result<
    Seq<usize>,
    UsageError<Seq<char>>,
> {
    match numbers_in(csv_parts(value), name) {
        Err(e) => Err(e),
        Ok(out) => if out.len() == 0 {
            Err(UsageError::NoValue(name))
        } else {
            Ok(out)
        },
    }
}

/// Whether a list holds at least one number, and positive ones only.
pub open spec fn positive_list(list: Seq<usize>) -> bool {
    &&& list.len() > 0
    &&& forall|i: int| 0 <= i < list.len() ==> #[trigger] list[i] > 0
}

proof fn lemma_numbers_in_err(parts: Seq<Seq<char>>, name: Seq<char>, i: int)
    requires
        0 <= i <= parts.len(),
        numbers_in(parts.take(i), name) is Err,
    ensures
        numbers_in(parts, name) == numbers_in(parts.take(i), name),
    decreases parts.len() - i,
{
    if i < parts.len() {
        assert(parts.take(i + 1).drop_last() =~= parts.take(i));
        lemma_numbers_in_err(parts, name, i + 1);
    } else {
        assert(parts.take(i) =~= parts);
    }
}

proof fn lemma_numbers_in_positive(parts: Seq<Seq<char>>, name: Seq<char>)
    requires
        numbers_in(parts, name) is Ok,
    ensures
        numbers_in(parts, name)->Ok_0.len() == parts.len(),
        forall|i: int|
            0 <= i < parts.len() ==> #[trigger] numbers_in(parts, name)->Ok_0[i] > 0
                && unsigned_number(parts[i], usize::MAX as nat) == Some(
                numbers_in(parts, name)->Ok_0[i] as nat,
            ),
    decreases parts.len(),
{
    if parts.len() > 0 {
        let head = parts.drop_last();
        lemma_numbers_in_positive(head, name);
        let out = numbers_in(parts, name)->Ok_0;
        assert forall|i: int| 0 <= i < parts.len() implies #[trigger] out[i] > 0
            && unsigned_number(parts[i], usize::MAX as nat) == Some(out[i] as nat) by {
            if i < parts.len() - 1 {
                assert(numbers_in(head, name)->Ok_0[i] == out[i]);
                assert(head[i] == parts[i]);
            }
        }
    }
}

/// An accepted list has one number for each part of the text, in order: the one
/// that the part denotes, and that is positive. It has at least one number.
pub proof fn law_positive_numbers(value: Seq<char>, name: Seq<char>)
    requires
        positive_numbers(value, name) is Ok,
    ensures
        ({
            let out = positive_numbers(value, name)->Ok_0;
            let parts = csv_parts(value);
            &&& out.len() == parts.len()
            &&& out.len() > 0
            &&& forall|i: int|
                0 <= i < out.len() ==> #[trigger] out[i] > 0 && unsigned_number(
                    parts[i],
                    usize::MAX as nat,
                ) == Some(out[i] as nat)
        }),
{
    lemma_numbers_in_positive(csv_parts(value), name);
}

/// Reads a comma-separated list of positive numbers.
pub fn parse_positive_usizes(value: &str, name: &str) -> (r: Result<Vec<usize>, CliError>)
    ensures
        outcome(r) == positive_numbers(value@, name@),
{
    let parts = split_csv(value);
    let ghost all = parts.deep_view();
    let mut out: Vec<usize> = Vec::new();
    let mut i: usize = 0;
    while i < parts.len()
        invariant
            i <= parts@.len(),
            all == parts.deep_view(),
            all == csv_parts(value@),
            numbers_in(all.take(i as int), name@) == Ok::<Seq<usize>, UsageError<Seq<char>>>(out@),
        decreases parts@.len() - i,
    {
        assert(all.take(i + 1).drop_last() =~= all.take(i as int));
        assert(all[i as int] == parts@[i as int]@);
        match read_usize(parts[i].as_str()) {
            None => {
                proof {
                    lemma_numbers_in_err(all, name@, i + 1);
                }
                return Err(UsageError::NotAnInteger(name.to_owned(), parts[i].clone()));
            },
            Some(n) => {
                if n == 0 {
                    proof {
                        lemma_numbers_in_err(all, name@, i + 1);
                    }
                    return Err(UsageError::ZeroInList(name.to_owned()));
                }
                out.push(n);
            },
        }
        i = i + 1;
    }
    assert(all.take(i as int) =~= all);
    if out.len() == 0 {
        return Err(UsageError::NoValue(name.to_owned()));
    }
    Ok(out)
}

/// Whether a part of a list is a positive number.
pub open spec fn positive_part(part: Seq<char>) -> bool {
    unsigned_number(part, usize::MAX as nat) matches Some(n) && n > 0
}

/// When a list of numbers is read: exactly when there is a part and each is a positive number.
/// Otherwise the first part that is not decides what is said of the list.
pub proof fn law_numbers_read(value: Seq<char>, name: Seq<char>, k: int)
    ensures
        ({
            let parts = csv_parts(value);
            let r = positive_numbers(value, name);
            let first_bad = 0 <= k < parts.len() && !positive_part(parts[k]) && forall|i: int|
                0 <= i < k ==> positive_part(#[trigger] parts[i]);
            &&& r is Ok <==> parts.len() > 0 && forall|i: int|
                0 <= i < parts.len() ==> positive_part(#[trigger] parts[i])
            &&& parts.len() == 0 ==> r == Err::<Seq<usize>, UsageError<Seq<char>>>(
                UsageError::NoValue(name),
            )
            &&& first_bad && unsigned_number(parts[k], usize::MAX as nat) is None ==> r == Err::<
                Seq<usize>,
                UsageError<Seq<char>>,
            >(UsageError::NotAnInteger(name, parts[k]))
            &&& first_bad && unsigned_number(parts[k], usize::MAX as nat) is Some ==> r == Err::<
                Seq<usize>,
                UsageError<Seq<char>>,
            >(UsageError::ZeroInList(name))
        }),
{
    let parts = csv_parts(value);
    lemma_numbers_in_all(parts, name);
    if numbers_in(parts, name) is Ok {
        lemma_numbers_in_positive(parts, name);
        assert forall|i: int| 0 <= i < parts.len() implies positive_part(#[trigger] parts[i]) by {
            assert(numbers_in(parts, name)->Ok_0[i] > 0);
        }
    }
    if 0 <= k < parts.len() && !positive_part(parts[k]) && (forall|i: int|
        0 <= i < k ==> positive_part(#[trigger] parts[i])) {
        let before = parts.take(k);
        assert forall|i: int| 0 <= i < before.len() implies positive_part(#[trigger] before[i]) by {
            assert(before[i] == parts[i]);
        }
        lemma_numbers_in_all(before, name);
        assert(parts.take(k + 1).drop_last() =~= before);
        lemma_numbers_in_err(parts, name, k + 1);
    }
}

proof fn lemma_numbers_in_all(parts: Seq<Seq<char>>, name: Seq<char>)
    ensures
        (forall|i: int| 0 <= i < parts.len() ==> positive_part(#[trigger] parts[i]))
            ==> numbers_in(parts, name) is Ok,
    decreases parts.len(),
{
    if parts.len() > 0 && (forall|i: int|
        0 <= i < parts.len() ==> positive_part(#[trigger] parts[i])) {
        let head = parts.drop_last();
        assert forall|i: int| 0 <= i < head.len() implies positive_part(#[trigger] head[i]) by {
            assert(head[i] == parts[i]);
        }
        lemma_numbers_in_all(head, name);
        assert(positive_part(parts[parts.len() - 1]));
    }
}

/// Two lists with a comma between them are read as one: the numbers of the first, then those
/// of the second.
pub proof fn law_number_lists_follow(x: Seq<char>, y: Seq<char>, name: Seq<char>)
    requires
        positive_numbers(x, name) is Ok,
        positive_numbers(y, name) is Ok,
    ensures
        positive_numbers(x.push(',') + y, name) == Ok::<Seq<usize>, UsageError<Seq<char>>>(
            positive_numbers(x, name)->Ok_0 + positive_numbers(y, name)->Ok_0,
        ),
{
    law_csv_concat(x, y);
    lemma_numbers_in_concat(csv_parts(x), csv_parts(y), name);
}

proof fn lemma_numbers_in_concat(a: Seq<Seq<char>>, b: Seq<Seq<char>>, name: Seq<char>)
    requires
        numbers_in(a, name) is Ok,
        numbers_in(b, name) is Ok,
    ensures
        numbers_in(a + b, name) == Ok::<Seq<usize>, UsageError<Seq<char>>>(
            numbers_in(a, name)->Ok_0 + numbers_in(b, name)->Ok_0,
        ),
    decreases b.len(),
{
    if b.len() == 0 {
        assert(a + b =~= a);
        assert(numbers_in(a, name)->Ok_0 + numbers_in(b, name)->Ok_0 =~= numbers_in(
            a,
            name,
        )->Ok_0);
    } else {
        assert((a + b).drop_last() =~= a + b.drop_last());
        lemma_numbers_in_concat(a, b.drop_last(), name);
        assert(numbers_in(a + b, name)->Ok_0 =~= numbers_in(a, name)->Ok_0 + numbers_in(
            b,
            name,
        )->Ok_0);
    }
}

/// A number is read back from how it is printed, unless it is zero, which is refused; what is
/// no number is named with the value that was given.
pub proof fn law_positive_number(n: usize, value: Seq<char>, name: Seq<char>)
    ensures
        n > 0 ==> positive_number(decimal(n as nat), name) == Ok::<usize, UsageError<Seq<char>>>(n),
        n == 0 ==> positive_number(decimal(n as nat), name) == Err::<
            usize,
            UsageError<Seq<char>>,
        >(UsageError::ZeroValue(name)),
        positive_number(value, name) is Ok ==> positive_number(value, name)->Ok_0 > 0,
        unsigned_number(value, usize::MAX as nat) is None <==> positive_number(value, name)
            == Err::<usize, UsageError<Seq<char>>>(UsageError::NotAnInteger(name, value)),
{
    law_read_undoes_print(n as nat, usize::MAX as nat);
}

} // verus!
