//! What a process has used: processor time and memory.
use crate::number::{
    decimal, law_printed_digits, law_signed_print, lemma_signed_read, read_i64, signed_decimal,
    signed_number,
};
use crate::text::{all_white, law_words, text_words, white_space, words};
use vstd::prelude::*;
use vstd::string::*;

verus! {

/// What a process had used at some time.
#[derive(Debug, Clone, Copy, PartialEq, Eq, Structural)]
pub struct ResourceSnapshot {
    /// Time in user mode, in microseconds.
    pub utime_us: i64,
    /// Time in the kernel, in microseconds.
    pub stime_us: i64,
    pub rss_bytes: i64,
    pub maxrss_kb: i64,
}

/// What was used between two snapshots.
#[derive(Debug, Clone, Copy, PartialEq, Eq, Structural)]
pub struct ResourceDelta {
    /// Time in user mode, in nanoseconds.
    pub cpu_user: u128,
    /// Time in the kernel, in nanoseconds.
    pub cpu_system: u128,
    pub rss_bytes_delta: i64,
    pub maxrss_kb_after: i64,
}

/// A time in microseconds: seconds, and the microseconds behind them.
pub open spec fn micros(seconds: i64, rest: i64) -> int {
    seconds * 1_000_000 + rest
}

/// Whether a number fits in 64 bits.
pub open spec fn fits(n: int) -> bool {
    i64::MIN <= n <= i64::MAX
}

fn to_micros(seconds: i64, rest: i64) -> (r: i64)
    requires
        fits(micros(seconds, rest)),
    ensures
        r == micros(seconds, rest),
{
    (seconds as i128 * 1_000_000 + rest as i128) as i64
}

/// The snapshot that the operating system's figures make. Only a process's own
/// resident memory is known, and counts as zero where it could not be read.
pub fn snapshot(
    user: (i64, i64),
    system: (i64, i64),
    resident: Option<i64>,
    maxrss_kb: i64,
) -> (r: ResourceSnapshot)
    requires
        fits(micros(user.0, user.1)),
        fits(micros(system.0, system.1)),
    ensures
        r.utime_us == micros(user.0, user.1),
        r.stime_us == micros(system.0, system.1),
        r.rss_bytes == match resident {
            Some(bytes) => bytes,
            None => 0,
        },
        r.maxrss_kb == maxrss_kb,
{
    ResourceSnapshot {
        utime_us: to_micros(user.0, user.1),
        stime_us: to_micros(system.0, system.1),
        rss_bytes: match resident {
            Some(bytes) => bytes,
            None => 0,
        },
        maxrss_kb,
    }
}

/// The nanoseconds from `before` to `after`, in microseconds; none where the
/// clock went back.
pub open spec fn spent(before: i64, after: i64) -> int {
    if after > before {
        (after - before) * 1000
    } else {
        0
    }
}

/// Whether two snapshots can be compared in 64 bits.
pub open spec fn comparable(before: ResourceSnapshot, after: ResourceSnapshot) -> bool {
    &&& fits(after.utime_us - before.utime_us)
    &&& fits(after.stime_us - before.stime_us)
    &&& fits(after.rss_bytes - before.rss_bytes)
}

fn time_spent(before: i64, after: i64) -> (r: u128)
    requires
        fits(after - before),
    ensures
        r == spent(before, after),
{
    if after > before {
        (after - before) as u128 * 1000
    } else {
        0
    }
}

/// What was used between two snapshots.
pub fn diff_resources(before: ResourceSnapshot, after: ResourceSnapshot) -> (r: ResourceDelta)
    requires
        comparable(before, after),
    ensures
        r.cpu_user == spent(before.utime_us, after.utime_us),
        r.cpu_system == spent(before.stime_us, after.stime_us),
        r.rss_bytes_delta == after.rss_bytes - before.rss_bytes,
        r.maxrss_kb_after == after.maxrss_kb,
{
    ResourceDelta {
        cpu_user: time_spent(before.utime_us, after.utime_us),
        cpu_system: time_spent(before.stime_us, after.stime_us),
        rss_bytes_delta: after.rss_bytes - before.rss_bytes,
        maxrss_kb_after: after.maxrss_kb,
    }
}

/// The number of resident pages that a `statm` text reports: its second word.
pub open spec fn pages_in(statm: Seq<char>) -> Option<int> {
    let all = words(statm);
    if all.len() < 2 {
        None
    } else {
        signed_number(all[1], i64::MAX as nat)
    }
}

/// Reads the number of resident pages from a `statm` text.
pub fn resident_pages(statm: &str) -> (r: Option<i64>)
    ensures
        match r {
            Some(pages) => pages_in(statm@) == Some(pages as int),
            None => pages_in(statm@) is None,
        },
{
    let all = text_words(statm);
    assert(all.deep_view().len() == all@.len());
    if all.len() < 2 {
        return None;
    }
    assert(all.deep_view()[1] == all@[1]@);
    read_i64(all[1].as_str())
}

/// The bytes that resident pages take.
pub fn resident_bytes(pages: i64, page_size: i64) -> (r: i64)
    requires
        fits(pages * page_size),
    ensures
        r == pages * page_size,
{
    pages * page_size
}

/// The time that was spent is a thousand nanoseconds for each microsecond that a clock moved
/// on, adds up over moments that follow each other, and is none where the clock went back.
pub proof fn law_spent(before: i64, between: i64, after: i64)
    ensures
        before <= after ==> spent(before, after) == 1000 * (after - before),
        before >= after ==> spent(before, after) == 0,
        before <= between <= after ==> spent(before, after) == spent(before, between) + spent(
            between,
            after,
        ),
{
}

/// A time in seconds and microseconds: one more of either is a million microseconds, or one.
pub proof fn law_micros(seconds: i64, rest: i64)
    ensures
        micros(0, rest) == rest,
        seconds < i64::MAX ==> micros((seconds + 1) as i64, rest) == micros(seconds, rest)
            + 1_000_000,
        rest < i64::MAX ==> micros(seconds, (rest + 1) as i64) == micros(seconds, rest) + 1,
{
}

/// The resident pages are the second number, whatever white space stands around it and
/// whatever follows.
pub proof fn law_resident_pages(size: nat, pages: int, gap: Seq<char>, rest: Seq<char>)
    requires
        i64::MIN <= pages <= i64::MAX,
        gap.len() > 0,
        all_white(gap),
        rest.len() > 0 ==> white_space(rest[0]),
    ensures
        pages_in(decimal(size) + gap + signed_decimal(pages) + rest) == Some(pages),
        pages_in(decimal(size) + gap) is None,
{
    let a = decimal(size);
    let b = signed_decimal(pages);
    law_printed_digits(size);
    law_printed_digits(if pages < 0 {
        (-pages) as nat
    } else {
        pages as nat
    });
    assert forall|i: int| 0 <= i < b.len() implies !white_space(#[trigger] b[i]) by {
        if pages < 0 && i > 0 {
            assert(b[i] == decimal((-pages) as nat)[i - 1]);
        }
        assert('0' <= b[i] <= '9' || b[i] == '-');
    }
    assert forall|i: int| 0 <= i < a.len() implies !white_space(#[trigger] a[i]) by {
        assert('0' <= a[i] <= '9');
    }
    law_signed_print(pages, pages);
    let tail = gap + b + rest;
    assert(tail[0] == gap[0] && white_space(gap[0]));
    let none = Seq::<char>::empty();
    law_words(none, a, tail);
    law_words(gap, b, rest);
    assert(a + gap + b + rest =~= none + a + tail);
    lemma_signed_read(pages, i64::MAX as nat);
    assert(words(a + gap + b + rest)[1] == b);
    law_words(none, a, gap);
    law_words(gap, a, none);
    assert(a + gap =~= none + a + gap);
}

} // verus!
