use std::time::Duration;
use transportbench::latency::{
    min_optional_duration, percentile, summarizable, summarize_latencies, LatencySummary, P50, P95,
    P99,
};
use transportbench::number::{count_text, read_i32, read_i64, read_u16, read_u64, read_usize, signed_text};
use transportbench::percent::{should_reject_by_percent, Percent};
use transportbench::resources::{diff_resources, resident_bytes, resident_pages, snapshot};
use transportbench::text::{is_white_space, split_csv, text_lines, text_words, trimmed};

fn nanos(values: &[Duration]) -> Vec<u128> {
    values.iter().map(|value| value.as_nanos()).collect()
}

fn native_percentile(sorted: &[Duration], p: f64) -> Duration {
    if sorted.len() == 1 {
        return sorted[0];
    }
    let rank = p * (sorted.len() - 1) as f64;
    let lower = rank.floor() as usize;
    let upper = rank.ceil() as usize;
    if lower == upper {
        return sorted[lower];
    }
    let weight = rank - lower as f64;
    let lo = sorted[lower].as_nanos() as f64;
    let hi = sorted[upper].as_nanos() as f64;
    Duration::from_nanos((lo + (hi - lo) * weight) as u64)
}

struct Random(u64);

impl Random {
    fn next(&mut self) -> u64 {
        self.0 = self.0.wrapping_mul(6364136223846793005).wrapping_add(1442695040888963407);
        self.0 >> 11
    }
}

#[test]
fn percentile_interpolates() {
    let values = vec![
        Duration::from_millis(1),
        Duration::from_millis(5),
        Duration::from_millis(10),
        Duration::from_millis(20),
    ];
    assert_eq!(
        percentile(&nanos(&values), P50),
        Duration::from_micros(7500).as_nanos()
    );
}

#[test]
fn percentiles_agree_with_native_arithmetic() {
    assert_eq!((P50, P95, P99), (0.50f64.to_bits(), 0.95f64.to_bits(), 0.99f64.to_bits()));
    let mut random = Random(7);
    for round in 0..4000 {
        let len = 1 + (random.next() % 40) as usize;
        let scale = round % 5;
        let mut values: Vec<Duration> = (0..len)
            .map(|_| match scale {
                0 => Duration::from_nanos(random.next() % 1000),
                1 => Duration::from_nanos(random.next()),
                2 => Duration::new(random.next() << 11, (random.next() % 1_000_000_000) as u32),
                3 => Duration::from_nanos(u64::MAX - random.next() % 5000),
                _ => Duration::new(
                    (random.next() % 3) << 33,
                    (random.next() % 1_000_000_000) as u32,
                ),
            })
            .collect();
        values.sort_unstable();
        let plain = nanos(&values);
        let any = f64::from_bits(random.next() % (1.0f64.to_bits() + 1));
        let near = f64::from_bits(1.0f64.to_bits() - (random.next() % (90 << 52)));
        let even = random.next() as f64 / (1u64 << 53) as f64;
        let coarse = (random.next() % 41) as f64 / 40.0;
        for p in [0.50, 0.95, 0.99, 0.0, 1.0, any, near, even, coarse] {
            assert_eq!(
                percentile(&plain, p.to_bits()),
                native_percentile(&values, p).as_nanos(),
                "{values:?} {p:e}"
            );
        }
    }
}

#[test]
fn percentiles_reach_from_the_first_value_to_the_last() {
    let values: Vec<Duration> =
        [0, 3, 3, 1 << 52, (1 << 53) - 1].iter().map(|n| Duration::from_nanos(*n)).collect();
    let plain = nanos(&values);
    assert_eq!(percentile(&plain, 0.0f64.to_bits()), 0);
    assert_eq!(percentile(&plain, 1.0f64.to_bits()), (1 << 53) - 1);
    let mut last = 0;
    for exponent in 0..1023u64 {
        for p in [exponent << 52, (exponent << 52) + 0x8_4210_8421_0842] {
            let value = percentile(&plain, p);
            assert_eq!(value, native_percentile(&values, f64::from_bits(p)).as_nanos());
            assert!(value >= last);
            last = value;
        }
    }
    for p in [-0.0, -0.25, -7.5, f64::NEG_INFINITY, f64::NAN, f64::from_bits(1)] {
        assert_eq!(percentile(&plain, p.to_bits()), native_percentile(&values, p).as_nanos());
    }
    assert_eq!(percentile(&vec![9], 2.0f64.to_bits()), 9);
}

#[test]
fn fine_fractions_round_as_doubles_do() {
    let values = [Duration::from_nanos((1 << 53) - 1), Duration::new(1 << 40, 1)];
    let plain = nanos(&values);
    let mut random = Random(11);
    for shift in 0..140u64 {
        for _ in 0..20 {
            let p = f64::from_bits(((1022 - shift) << 52) + (random.next() >> 1) % (1 << 52));
            assert_eq!(
                percentile(&plain, p.to_bits()),
                native_percentile(&values, p).as_nanos(),
                "{p:e}"
            );
        }
    }
}

#[test]
fn latencies_are_summarized() {
    let values: Vec<u128> = vec![30, 10, 20, 41];
    assert!(summarizable(&values));
    let s = summarize_latencies(&values);
    assert_eq!((s.min, s.max, s.mean), (10, 41, 25));
    assert_eq!((s.p50, s.p95, s.p99), (25, 39, 40));
    assert_eq!(summarize_latencies(&vec![]), LatencySummary::default());
    assert_eq!(summarize_latencies(&vec![7]).p99, 7);
    let reversed: Vec<u128> = vec![41, 20, 10, 30];
    assert_eq!(summarize_latencies(&reversed), s);
    assert!(!summarizable(&vec![u128::MAX, 1]));
    assert!(!summarizable(&vec![18_446_744_073_709_551_616_000_000_000]));
}

#[test]
fn means_agree_with_native_durations() {
    let mut random = Random(5);
    for _ in 0..500 {
        let len = 1 + (random.next() % 50) as usize;
        let values: Vec<Duration> = (0..len)
            .map(|_| Duration::new(random.next() % 1000, (random.next() % 1_000_000_000) as u32))
            .collect();
        let total = values.iter().fold(Duration::ZERO, |acc, value| acc + *value);
        assert_eq!(
            summarize_latencies(&nanos(&values)).mean,
            (total / len as u32).as_nanos()
        );
    }
}

#[test]
fn figures_of_latencies_are_in_order() {
    let mut random = Random(3);
    for _ in 0..200 {
        let len = 1 + (random.next() % 30) as usize;
        let values: Vec<u128> = (0..len).map(|_| (random.next() % 1_000_000) as u128).collect();
        let s = summarize_latencies(&values);
        assert!(s.min <= s.p50 && s.p50 <= s.p95 && s.p95 <= s.p99 && s.p99 <= s.max);
        assert!(s.min <= s.mean && s.mean <= s.max);
    }
}

#[test]
fn the_shorter_of_two_timeouts() {
    assert_eq!(min_optional_duration(Some(3), Some(2)), Some(2));
    assert_eq!(min_optional_duration(Some(3), None), Some(3));
    assert_eq!(min_optional_duration(None, Some(4)), Some(4));
    assert_eq!(min_optional_duration(None, None), None);
}

fn percent(value: f64) -> Percent {
    Percent::from_bits(value.to_bits()).unwrap()
}

#[test]
fn percentages_round_as_native_numbers_do() {
    let mut random = Random(11);
    let mut values = vec![
        0.0, -0.0, 0.005, 0.004999, 0.015, 1.0, 5.0, 12.345, 99.995, 99.9949999, 100.0, 1e-310,
        5e-324, 0.0005, 1e-300, 0.125, 0.375, 33.333333333333336,
    ];
    for _ in 0..4000 {
        values.push((random.next() % 100_001) as f64 / 1000.0);
        values.push((random.next() as f64 / 9007199254740992.0) * 100.0);
    }
    for value in values {
        assert_eq!(percent(value).basis_points(), (value * 100.0).round() as usize, "{value}");
        assert_eq!(percent(value).thousandths(), (value * 1000.0).round() as usize, "{value}");
        assert_eq!(percent(value).is_positive(), value > 0.0);
        assert_eq!(percent(value).bits(), value.to_bits());
    }
    assert!(Percent::from_bits((-1.0f64).to_bits()).is_none());
    assert!(Percent::from_bits(f64::NAN.to_bits()).is_none());
    assert!(Percent::from_bits(100.00000000000001f64.to_bits()).is_none());
    assert_eq!(Percent::zero().basis_points(), 0);
}

#[test]
fn a_percentage_of_requests_is_turned_away() {
    for (value, points) in [(0.0, 0), (0.001, 0), (5.0, 500), (12.34, 1234), (99.99, 9999), (100.0, 10_000)] {
        let p = percent(value);
        let mut away = 0;
        for n in 1..=3000usize {
            if should_reject_by_percent(n, p) {
                away += 1;
            }
            assert_eq!(away, n * points / 10_000);
        }
    }
    assert!(!should_reject_by_percent(1, percent(5.0)));
    assert!(should_reject_by_percent(20, percent(5.0)));
    let saturated = usize::MAX % 10_000 < 500;
    assert_eq!(should_reject_by_percent(usize::MAX, percent(5.0)), saturated);
}

#[test]
fn resources_are_compared() {
    let before = snapshot((1, 500_000), (0, 7), Some(4096), 10);
    let after = snapshot((2, 0), (0, 3), None, 12);
    assert_eq!(before.utime_us, 1_500_000);
    assert_eq!(after.rss_bytes, 0);
    let delta = diff_resources(before, after);
    assert_eq!(delta.cpu_user, Duration::from_millis(500).as_nanos());
    assert_eq!(delta.cpu_system, 0);
    assert_eq!(delta.rss_bytes_delta, -4096);
    assert_eq!(delta.maxrss_kb_after, 12);
    assert_eq!(resident_pages("1 23 4\n"), Some(23));
    assert_eq!(resident_pages("1"), None);
    assert_eq!(resident_pages("1 x"), None);
    assert_eq!(resident_bytes(23, 4096), 94208);
}

#[test]
fn numbers_are_read_as_std_reads_them() {
    for text in [
        "0", "7", "+7", "-7", "007", "", "+", "-", "1 ", " 1", "1_0", "65535", "65536",
        "2147483647", "2147483648", "-2147483648", "-2147483649", "9223372036854775807",
        "9223372036854775808", "-9223372036854775808", "-9223372036854775809",
        "18446744073709551615", "18446744073709551616", "99999999999999999999999999999999999",
        "-0", "+-1", "\u{0661}", "1.0",
    ] {
        assert_eq!(read_usize(text), text.parse().ok(), "{text}");
        assert_eq!(read_u64(text), text.parse().ok(), "{text}");
        assert_eq!(read_u16(text), text.parse().ok(), "{text}");
        assert_eq!(read_i32(text), text.parse().ok(), "{text}");
        assert_eq!(read_i64(text), text.parse().ok(), "{text}");
    }
    for n in [0usize, 1, 9, 10, 1234567, usize::MAX] {
        assert_eq!(count_text(n), n.to_string());
        assert_eq!(read_usize(&count_text(n)), Some(n));
    }
    for n in [0i64, -1, 42, i64::MIN, i64::MAX] {
        assert_eq!(signed_text(n), n.to_string());
    }
}

#[test]
fn text_is_split_as_std_splits_it() {
    for code in 0..=0x10ffffu32 {
        if let Some(c) = char::from_u32(code) {
            assert_eq!(is_white_space(c), c.is_whitespace());
        }
    }
    for text in ["", "a", "a\nb", "a\r\nb\r", "\n\n", "a\n", "\r\n", "x\ty\n", " a  b\u{3000}c ", "\u{85}"] {
        assert_eq!(text_lines(text), text.lines().collect::<Vec<_>>(), "{text:?}");
        assert_eq!(text_words(text), text.split_whitespace().collect::<Vec<_>>(), "{text:?}");
        assert_eq!(trimmed(text), text.trim());
    }
    assert_eq!(split_csv(" a, ,b c,,\td "), vec!["a", "b c", "d"]);
}
