//! The reports of the overload experiment: what each run came to, and whether
//! resetting streams costs less than answering. Numbers with a fraction come as
//! text, printed with the number of places that their column has.
use crate::csv::{
    add_line, all_lines, header_line, lemma_first_line, lemma_next_line, LatencyTexts,
};
use crate::mode::OverloadMode;
use crate::number::{
    count_text, decimal, law_prints_read, law_read_undoes_print, reads_as, reads_as_signed,
    signed_decimal, signed_text, unsigned_number,
};
use crate::overload_server::OverloadServerStats;
use crate::percent::{percent_positive, thousandths};
use crate::plan::OverloadScenario;
use crate::text::{comma_joined, join_commas, law_split_concat, law_split_plain, split};
use vstd::prelude::*;
use vstd::string::*;

verus! {

// ---------------------------------------------------------------------------
// Rows
// ---------------------------------------------------------------------------

/// A double-precision number that is not negative: its bits, by which it is
/// compared, and how it is printed.
#[derive(Debug, Clone)]
pub struct Figure {
    pub bits: u64,
    pub text: String,
}

/// What a run came to.
#[derive(Debug, Clone)]
pub struct OverloadResultRow {
    pub scenario: OverloadScenario,
    /// The percentage, with three places.
    pub reject_percent: String,
    /// The percentage, with one place.
    pub reject_percent_label: String,
    pub repeat_index: usize,
    pub duration_ms: String,
    pub throughput: String,
    pub successes: usize,
    pub rejected: usize,
    pub reset_streams: usize,
    pub errors: usize,
    pub latency: LatencyTexts,
    /// The 95th percentile, with six places.
    pub latency_p95_exact: String,
    pub rejection_mean_ms: Figure,
    pub rejection_p95_ms: String,
    pub rejection_p99_ms: String,
    pub server: OverloadServerStats,
    pub server_ms: Figure,
    pub server_avg_ms: String,
    pub cpu_user_ms: String,
    pub cpu_system_ms: String,
    pub cpu_total_ms: String,
    pub cpu_percent: String,
    pub rss_bytes_delta: i64,
    pub maxrss_kb_after: i64,
}

/// How many requests a server has dealt with.
pub fn requests_handled(stats: &OverloadServerStats) -> (r: usize)
    requires
        stats.accepted_requests + stats.app_rejections + stats.reset_rejections <= usize::MAX,
    ensures
        r == stats.accepted_requests + stats.app_rejections + stats.reset_rejections,
{
    stats.accepted_requests + stats.app_rejections + stats.reset_rejections
}

/// The fields of a row of the overload report.
pub open spec fn overload_fields_of(row: OverloadResultRow) -> Seq<Seq<char>> {
    seq![
        row.scenario.mode.name(),
        decimal(row.scenario.total_requests as nat),
        decimal(row.scenario.concurrency as nat),
        decimal(row.scenario.payload_size as nat),
        decimal(row.scenario.threshold as nat),
        row.reject_percent@,
        decimal(row.repeat_index as nat),
        row.duration_ms@,
        row.throughput@,
        decimal(row.successes as nat),
        decimal(row.rejected as nat),
        decimal(row.reset_streams as nat),
        decimal(row.errors as nat),
        row.latency.mean@,
        row.latency.p50@,
        row.latency.p95@,
        row.latency.p99@,
        row.latency.min@,
        row.latency.max@,
        row.rejection_mean_ms.text@,
        row.rejection_p95_ms@,
        row.rejection_p99_ms@,
        decimal(row.server.bytes_read as nat),
        row.server_ms.text@,
        row.server_avg_ms@,
        decimal(row.server.accepted_requests as nat),
        decimal(row.server.successful_requests as nat),
        decimal(row.server.app_rejections as nat),
        decimal(row.server.reset_rejections as nat),
        decimal(row.server.peak_inflight as nat),
        row.cpu_user_ms@,
        row.cpu_system_ms@,
        row.cpu_total_ms@,
        row.cpu_percent@,
        signed_decimal(row.rss_bytes_delta as int),
        signed_decimal(row.maxrss_kb_after as int),
    ]
}

fn overload_fields(row: &OverloadResultRow) -> (r: Vec<String>)
    ensures
        r.deep_view() == overload_fields_of(*row),
{
    let r: Vec<String> = vec![
        row.scenario.mode.as_str().to_owned(),
        count_text(row.scenario.total_requests),
        count_text(row.scenario.concurrency),
        count_text(row.scenario.payload_size),
        count_text(row.scenario.threshold),
        row.reject_percent.clone(),
        count_text(row.repeat_index),
        row.duration_ms.clone(),
        row.throughput.clone(),
        count_text(row.successes),
        count_text(row.rejected),
        count_text(row.reset_streams),
        count_text(row.errors),
        row.latency.mean.clone(),
        row.latency.p50.clone(),
        row.latency.p95.clone(),
        row.latency.p99.clone(),
        row.latency.min.clone(),
        row.latency.max.clone(),
        row.rejection_mean_ms.text.clone(),
        row.rejection_p95_ms.clone(),
        row.rejection_p99_ms.clone(),
        count_text(row.server.bytes_read),
        row.server_ms.text.clone(),
        row.server_avg_ms.clone(),
        count_text(row.server.accepted_requests),
        count_text(row.server.successful_requests),
        count_text(row.server.app_rejections),
        count_text(row.server.reset_rejections),
        count_text(row.server.peak_inflight),
        row.cpu_user_ms.clone(),
        row.cpu_system_ms.clone(),
        row.cpu_total_ms.clone(),
        row.cpu_percent.clone(),
        signed_text(row.rss_bytes_delta),
        signed_text(row.maxrss_kb_after),
    ];
    assert(r.deep_view() =~= overload_fields_of(*row));
    r
}

/// The names of the columns of the overload report.
pub open spec fn overload_columns() -> Seq<Seq<char>> {
    seq![
        "mode"@,
        "total_requests"@,
        "concurrency"@,
        "payload_size_bytes"@,
        "threshold"@,
        "reject_percent"@,
        "repeat_index"@,
        "duration_ms"@,
        "throughput_req_s"@,
        "successes"@,
        "rejected"@,
        "reset_streams"@,
        "errors"@,
        "latency_mean_ms"@,
        "latency_p50_ms"@,
        "latency_p95_ms"@,
        "latency_p99_ms"@,
        "latency_min_ms"@,
        "latency_max_ms"@,
        "rejection_latency_mean_ms"@,
        "rejection_latency_p95_ms"@,
        "rejection_latency_p99_ms"@,
        "server_bytes_read"@,
        "server_handling_time_ms"@,
        "server_avg_handling_time_ms"@,
        "server_accepted_requests"@,
        "server_successful_requests"@,
        "server_app_rejections"@,
        "server_reset_rejections"@,
        "server_peak_inflight"@,
        "cpu_user_ms"@,
        "cpu_system_ms"@,
        "cpu_total_ms"@,
        "cpu_percent"@,
        "rss_bytes_delta"@,
        "maxrss_kb_after"@,
    ]
}

/// The lines of the overload report.
pub open spec fn overload_lines(rows: Seq<OverloadResultRow>) -> Seq<Seq<char>> {
    seq![comma_joined(overload_columns())] + rows.map_values(
        |row: OverloadResultRow| comma_joined(overload_fields_of(row)),
    )
}

/// Every row of the overload report has a field for each column.
pub proof fn law_overload_lines(row: OverloadResultRow)
    ensures
        overload_fields_of(row).len() == overload_columns().len(),
{
}

/// Writes the overload report.
pub fn write_overload_csv(rows: &Vec<OverloadResultRow>) -> (r: String)
    ensures
        r@ == all_lines(overload_lines(rows@)),
{
    let columns: Vec<&str> = vec![
        "mode",
        "total_requests",
        "concurrency",
        "payload_size_bytes",
        "threshold",
        "reject_percent",
        "repeat_index",
        "duration_ms",
        "throughput_req_s",
        "successes",
        "rejected",
        "reset_streams",
        "errors",
        "latency_mean_ms",
        "latency_p50_ms",
        "latency_p95_ms",
        "latency_p99_ms",
        "latency_min_ms",
        "latency_max_ms",
        "rejection_latency_mean_ms",
        "rejection_latency_p95_ms",
        "rejection_latency_p99_ms",
        "server_bytes_read",
        "server_handling_time_ms",
        "server_avg_handling_time_ms",
        "server_accepted_requests",
        "server_successful_requests",
        "server_app_rejections",
        "server_reset_rejections",
        "server_peak_inflight",
        "cpu_user_ms",
        "cpu_system_ms",
        "cpu_total_ms",
        "cpu_percent",
        "rss_bytes_delta",
        "maxrss_kb_after",
    ];
    assert(columns@.map_values(|name: &str| name@) =~= overload_columns());
    let mut out = String::new();
    let header = header_line(&columns);
    add_line(&mut out, header.as_str());
    let mut i: usize = 0;
    let ghost wanted = overload_lines(rows@);
    proof {
        lemma_first_line(wanted);
    }
    while i < rows.len()
        invariant
            i <= rows@.len(),
            wanted == overload_lines(rows@),
            out@ == all_lines(wanted.take(i + 1)),
        decreases rows@.len() - i,
    {
        let fields = overload_fields(&rows[i]);
        let line = join_commas(&fields);
        proof {
            lemma_next_line(wanted, i + 1);
        }
        assert(wanted[i + 1] == line@);
        add_line(&mut out, line.as_str());
        i = i + 1;
    }
    assert(wanted.take(i + 1) =~= wanted);
    out
}

/// The rows of an experiment, by the way in which requests were turned away, each
/// in the order of its runs.
#[derive(Debug)]
pub struct OverloadResults {
    app503: Vec<OverloadResultRow>,
    reset: Vec<OverloadResultRow>,
}

/// The values of `OverloadResults`.
#[verifier::ext_equal]
pub struct ResultsModel {
    pub app503: Seq<OverloadResultRow>,
    pub reset: Seq<OverloadResultRow>,
}

impl View for OverloadResults {
    type V = ResultsModel;

    closed spec fn view(&self) -> ResultsModel {
        ResultsModel { app503: self.app503@, reset: self.reset@ }
    }
}

/// The rows of an experiment after one more run.
pub open spec fn with_row(m: ResultsModel, row: OverloadResultRow) -> ResultsModel {
    match row.scenario.mode {
        OverloadMode::App503 => ResultsModel { app503: m.app503.push(row), ..m },
        OverloadMode::Reset => ResultsModel { reset: m.reset.push(row), ..m },
    }
}

/// The rows of an experiment after these runs.
pub open spec fn results_of(rows: Seq<OverloadResultRow>) -> ResultsModel
    decreases rows.len(),
{
    if rows.len() == 0 {
        ResultsModel { app503: seq![], reset: seq![] }
    } else {
        with_row(results_of(rows.drop_last()), rows.last())
    }
}

impl OverloadResults {
    /// No row yet.
    pub fn start() -> (r: OverloadResults)
        ensures
            r@ == results_of(seq![]),
    {
        OverloadResults { app503: Vec::new(), reset: Vec::new() }
    }

    /// Adds a row to those of its mode.
    pub fn push(&mut self, row: OverloadResultRow)
        ensures
            final(self)@ == with_row(old(self)@, row),
    {
        match row.scenario.mode {
            OverloadMode::App503 => {
                self.app503.push(row);
            },
            OverloadMode::Reset => {
                self.reset.push(row);
            },
        }
    }

    /// The rows of a mode.
    pub fn rows(&self, mode: OverloadMode) -> (r: &Vec<OverloadResultRow>)
        ensures
            r@ == match mode {
                OverloadMode::App503 => self@.app503,
                OverloadMode::Reset => self@.reset,
            },
    {
        match mode {
            OverloadMode::App503 => &self.app503,
            OverloadMode::Reset => &self.reset,
        }
    }
}

// ---------------------------------------------------------------------------
// Comparisons
// ---------------------------------------------------------------------------

/// What two runs have to share to be compared: payload size, concurrency,
/// threshold, percentage in thousandths, and repetition.
pub type Key = (usize, usize, usize, usize, usize);

/// What a row is compared by.
pub open spec fn key_of(row: OverloadResultRow) -> Key {
    (
        row.scenario.payload_size,
        row.scenario.concurrency,
        row.scenario.threshold,
        thousandths(row.scenario.reject_percent@) as usize,
        row.repeat_index,
    )
}

/// The order of the comparisons.
pub open spec fn key_before(a: Key, b: Key) -> bool {
    ||| a.0 < b.0
    ||| a.0 == b.0 && a.1 < b.1
    ||| a.0 == b.0 && a.1 == b.1 && a.2 < b.2
    ||| a.0 == b.0 && a.1 == b.1 && a.2 == b.2 && a.3 < b.3
    ||| a.0 == b.0 && a.1 == b.1 && a.2 == b.2 && a.3 == b.3 && a.4 < b.4
}

/// The position of the last row with this key; -1 where there is none.
pub open spec fn last_with(rows: Seq<OverloadResultRow>, key: Key) -> int
    decreases rows.len(),
{
    if rows.len() == 0 {
        -1
    } else if key_of(rows.last()) == key {
        rows.len() - 1
    } else {
        last_with(rows.drop_last(), key)
    }
}

/// Whether the row at `a` is compared: it is the last one with its key, and there is
/// a run of the other mode with the same key.
pub open spec fn compared(m: ResultsModel, a: int) -> bool {
    &&& 0 <= a < m.app503.len()
    &&& last_with(m.app503, key_of(m.app503[a])) == a
    &&& last_with(m.reset, key_of(m.app503[a])) >= 0
}

/// The row that the row at `a` is compared with.
pub open spec fn partner(m: ResultsModel, a: int) -> int {
    last_with(m.reset, key_of(m.app503[a]))
}

/// Whether resetting cost less: fewer bytes read, less time, and less until the
/// client knew.
pub open spec fn costs_less(app: OverloadResultRow, reset: OverloadResultRow) -> bool {
    &&& reset.server.bytes_read < app.server.bytes_read
    &&& reset.server_ms.bits < app.server_ms.bits
    &&& reset.rejection_mean_ms.bits < app.rejection_mean_ms.bits
}

/// Whether resetting cost less in every comparison, of which there is at least one.
pub open spec fn claim_holds(m: ResultsModel) -> bool {
    &&& exists|a: int| compared(m, a)
    &&& forall|a: int| #[trigger] compared(m, a) ==> costs_less(
        m.app503[a],
        m.reset[partner(m, a)],
    )
}

/// A comparison: the positions of two rows among those of their modes.
pub type Pair = (usize, usize);

/// Whether `pairs` are all comparisons, in the order of their keys.
pub open spec fn all_comparisons(m: ResultsModel, pairs: Seq<Pair>) -> bool {
    &&& forall|i: int|
        0 <= i < pairs.len() ==> compared(m, (#[trigger] pairs[i]).0 as int) && pairs[i].1
            == partner(m, pairs[i].0 as int)
    &&& forall|i: int, j: int|
        0 <= i < j < pairs.len() ==> key_before(
            key_of(m.app503[(#[trigger] pairs[i]).0 as int]),
            key_of(m.app503[(#[trigger] pairs[j]).0 as int]),
        )
    &&& forall|a: int| #[trigger]
        compared(m, a) ==> exists|i: int| 0 <= i < pairs.len() && (#[trigger] pairs[i]).0 == a
}

proof fn lemma_last_with(rows: Seq<OverloadResultRow>, key: Key)
    ensures
        -1 <= last_with(rows, key) < rows.len(),
        last_with(rows, key) >= 0 ==> key_of(rows[last_with(rows, key)]) == key,
        forall|i: int|
            last_with(rows, key) < i < rows.len() ==> key_of(#[trigger] rows[i]) != key,
    decreases rows.len(),
{
    if rows.len() > 0 && key_of(rows.last()) != key {
        let rest = rows.drop_last();
        lemma_last_with(rest, key);
        assert forall|i: int| last_with(rows, key) < i < rows.len() implies key_of(
            #[trigger] rows[i],
        ) != key by {
            if i < rest.len() {
                assert(rest[i] == rows[i]);
            }
        }
    }
}

fn row_key(row: &OverloadResultRow) -> (r: Key)
    ensures
        r == key_of(*row),
{
    (
        row.scenario.payload_size,
        row.scenario.concurrency,
        row.scenario.threshold,
        row.scenario.reject_percent.thousandths(),
        row.repeat_index,
    )
}

fn same_key(a: Key, b: Key) -> (r: bool)
    ensures
        r == (a == b),
{
    a.0 == b.0 && a.1 == b.1 && a.2 == b.2 && a.3 == b.3 && a.4 == b.4
}

fn comes_before(a: Key, b: Key) -> (r: bool)
    ensures
        r == key_before(a, b),
{
    if a.0 != b.0 {
        a.0 < b.0
    } else if a.1 != b.1 {
        a.1 < b.1
    } else if a.2 != b.2 {
        a.2 < b.2
    } else if a.3 != b.3 {
        a.3 < b.3
    } else {
        a.4 < b.4
    }
}

fn last_index(rows: &Vec<OverloadResultRow>, key: Key) -> (r: Option<usize>)
    ensures
        match r {
            Some(i) => last_with(rows@, key) == i,
            None => last_with(rows@, key) < 0,
        },
{
    let mut i: usize = rows.len();
    assert(rows@.take(i as int) =~= rows@);
    while i > 0
        invariant
            i <= rows@.len(),
            last_with(rows@.take(i as int), key) == last_with(rows@, key),
        decreases i,
    {
        assert(rows@.take(i as int).drop_last() =~= rows@.take(i - 1));
        if same_key(row_key(&rows[i - 1]), key) {
            return Some(i - 1);
        }
        i = i - 1;
    }
    None
}

/// The comparisons that the rows of an experiment allow, in the order of payload
/// size, concurrency, threshold, percentage and repetition. Of several rows with the
/// same key, the last one counts.
pub fn overload_comparisons(results: &OverloadResults) -> (r: Vec<Pair>)
    ensures
        all_comparisons(results@, r@),
{
    let ghost m = results@;
    let mut out: Vec<Pair> = Vec::new();
    let mut a: usize = 0;
    while a < results.app503.len()
        invariant
            a <= results.app503@.len(),
            m == results@,
            forall|i: int|
                0 <= i < out@.len() ==> (#[trigger] out@[i]).0 < a && compared(m, out@[i].0 as int)
                    && out@[i].1 == partner(m, out@[i].0 as int),
            forall|i: int, j: int|
                0 <= i < j < out@.len() ==> key_before(
                    key_of(m.app503[(#[trigger] out@[i]).0 as int]),
                    key_of(m.app503[(#[trigger] out@[j]).0 as int]),
                ),
            forall|x: int|
                0 <= x < a && #[trigger] compared(m, x) ==> exists|i: int|
                    0 <= i < out@.len() && (#[trigger] out@[i]).0 == x,
        decreases results.app503@.len() - a,
    {
        let key = row_key(&results.app503[a]);
        let ghost before = out@;
        proof {
            lemma_last_with(m.app503, key);
        }
        let own = last_index(&results.app503, key);
        let is_last = match own {
            Some(i) => i == a,
            None => false,
        };
        if is_last {
            match last_index(&results.reset, key) {
                None => {},
                Some(b) => {
                    let mut at: usize = 0;
                    while at < out.len() && comes_before(
                        row_key(&results.app503[out[at].0]),
                        key,
                    )
                        invariant
                            at <= out@.len(),
                            out@ == before,
                            m == results@,
                            a < results.app503@.len(),
                            forall|i: int|
                                0 <= i < out@.len() ==> (#[trigger] out@[i]).0 < a,
                            forall|i: int|
                                0 <= i < at ==> key_before(
                                    key_of(m.app503[(#[trigger] out@[i]).0 as int]),
                                    key,
                                ),
                        decreases out@.len() - at,
                    {
                        at = at + 1;
                    }
                    proof {
                        lemma_place(m, before, a as int, at as int);
                    }
                    out.insert(at, (a, b));
                    proof {
                        lemma_inserted_order(keys_of(m, before), key, at as int);
                        assert(keys_of(m, out@) =~= keys_of(m, before).insert(at as int, key));
                        lemma_sorted_keys(m, out@);
                        lemma_inserted_members(m, before, out@, (a, b), at as int);
                    }
                },
            }
        }
        a = a + 1;
    }
    out
}

proof fn lemma_place(m: ResultsModel, pairs: Seq<Pair>, a: int, at: int)
    requires
        compared(m, a),
        0 <= at <= pairs.len(),
        forall|i: int|
            0 <= i < pairs.len() ==> (#[trigger] pairs[i]).0 < a && compared(
                m,
                pairs[i].0 as int,
            ),
        forall|i: int, j: int|
            0 <= i < j < pairs.len() ==> key_before(
                key_of(m.app503[(#[trigger] pairs[i]).0 as int]),
                key_of(m.app503[(#[trigger] pairs[j]).0 as int]),
            ),
        at < pairs.len() ==> !key_before(
            key_of(m.app503[pairs[at].0 as int]),
            key_of(m.app503[a]),
        ),
    ensures
        forall|i: int|
            at <= i < pairs.len() ==> key_before(
                key_of(m.app503[a]),
                key_of(m.app503[(#[trigger] pairs[i]).0 as int]),
            ),
{
    assert forall|i: int| at <= i < pairs.len() implies key_before(
        key_of(m.app503[a]),
        key_of(m.app503[(#[trigger] pairs[i]).0 as int]),
    ) by {
        assert(compared(m, pairs[at].0 as int));
        assert(key_of(m.app503[pairs[at].0 as int]) != key_of(m.app503[a]));
    }
}

proof fn lemma_inserted_order(keys: Seq<Key>, key: Key, at: int)
    requires
        0 <= at <= keys.len(),
        forall|i: int, j: int| 0 <= i < j < keys.len() ==> key_before(keys[i], keys[j]),
        forall|i: int| 0 <= i < at ==> key_before(#[trigger] keys[i], key),
        forall|i: int| at <= i < keys.len() ==> key_before(key, #[trigger] keys[i]),
    ensures
        ({
            let more = keys.insert(at, key);
            forall|i: int, j: int| 0 <= i < j < more.len() ==> key_before(more[i], more[j])
        }),
{
    let more = keys.insert(at, key);
    assert forall|i: int, j: int| 0 <= i < j < more.len() implies key_before(more[i], more[j]) by {
        if j < at {
            assert(more[i] == keys[i] && more[j] == keys[j]);
        } else if i < at {
            assert(more[i] == keys[i]);
            if j > at {
                assert(more[j] == keys[j - 1]);
            }
        } else {
            assert(more[j] == keys[j - 1]);
            if i > at {
                assert(more[i] == keys[i - 1]);
            }
        }
    }
}

proof fn lemma_sorted_keys(m: ResultsModel, pairs: Seq<Pair>)
    requires
        forall|i: int, j: int|
            0 <= i < j < pairs.len() ==> key_before(keys_of(m, pairs)[i], keys_of(m, pairs)[j]),
    ensures
        forall|i: int, j: int|
            0 <= i < j < pairs.len() ==> key_before(
                key_of(m.app503[(#[trigger] pairs[i]).0 as int]),
                key_of(m.app503[(#[trigger] pairs[j]).0 as int]),
            ),
{
    let keys = keys_of(m, pairs);
    assert forall|i: int, j: int| 0 <= i < j < pairs.len() implies key_before(
        key_of(m.app503[(#[trigger] pairs[i]).0 as int]),
        key_of(m.app503[(#[trigger] pairs[j]).0 as int]),
    ) by {
        assert(key_before(keys[i], keys[j]));
    }
}

proof fn lemma_inserted_members(
    m: ResultsModel,
    before: Seq<Pair>,
    after: Seq<Pair>,
    pair: Pair,
    at: int,
)
    requires
        0 <= at <= before.len(),
        after == before.insert(at, pair),
        compared(m, pair.0 as int),
        pair.1 == partner(m, pair.0 as int),
        forall|i: int|
            0 <= i < before.len() ==> (#[trigger] before[i]).0 < pair.0 && compared(
                m,
                before[i].0 as int,
            ) && before[i].1 == partner(m, before[i].0 as int),
        forall|x: int|
            0 <= x < pair.0 && #[trigger] compared(m, x) ==> exists|i: int|
                0 <= i < before.len() && (#[trigger] before[i]).0 == x,
    ensures
        forall|i: int|
            0 <= i < after.len() ==> (#[trigger] after[i]).0 <= pair.0 && compared(
                m,
                after[i].0 as int,
            ) && after[i].1 == partner(m, after[i].0 as int),
        forall|x: int|
            0 <= x <= pair.0 && #[trigger] compared(m, x) ==> exists|i: int|
                0 <= i < after.len() && (#[trigger] after[i]).0 == x,
{
    assert forall|i: int| 0 <= i < after.len() implies (#[trigger] after[i]).0 <= pair.0
        && compared(m, after[i].0 as int) && after[i].1 == partner(m, after[i].0 as int) by {
        if i < at {
            assert(before[i] == after[i]);
        } else if i > at {
            assert(before[i - 1] == after[i]);
        }
    }
    assert forall|x: int| 0 <= x <= pair.0 && #[trigger] compared(m, x) implies exists|i: int|
        0 <= i < after.len() && (#[trigger] after[i]).0 == x by {
        if x == pair.0 {
            assert(after[at].0 == x);
        } else {
            let i = choose|i: int| 0 <= i < before.len() && (#[trigger] before[i]).0 == x;
            if i < at {
                assert(after[i] == before[i]);
            } else {
                assert(after[i + 1] == before[i]);
            }
        }
    }
}

spec fn keys_of(m: ResultsModel, pairs: Seq<Pair>) -> Seq<Key> {
    pairs.map_values(|pair: Pair| key_of(m.app503[pair.0 as int]))
}

/// The comparisons of an experiment, and their order, are fixed by its rows.
pub proof fn law_comparisons_are_fixed(m: ResultsModel, p: Seq<Pair>, q: Seq<Pair>)
    requires
        all_comparisons(m, p),
        all_comparisons(m, q),
    ensures
        p == q,
{
    lemma_common_prefix(m, p, q, p.len());
    lemma_common_prefix(m, q, p, q.len());
    assert(p =~= q);
}

proof fn lemma_common_prefix(m: ResultsModel, p: Seq<Pair>, q: Seq<Pair>, n: nat)
    requires
        all_comparisons(m, p),
        all_comparisons(m, q),
        n <= p.len(),
    ensures
        n <= q.len(),
        forall|i: int| 0 <= i < n ==> #[trigger] p[i] == q[i],
    decreases n,
{
    if n > 0 {
        let k = n - 1;
        lemma_common_prefix(m, p, q, k as nat);
        assert(compared(m, p[k].0 as int));
        let j = choose|j: int| 0 <= j < q.len() && (#[trigger] q[j]).0 == p[k].0;
        if j < k {
            assert(p[j] == q[j]);
            assert(key_before(key_of(m.app503[p[j].0 as int]), key_of(m.app503[p[k].0 as int])));
        }
        if j > k {
            assert(compared(m, q[k].0 as int));
            let i = choose|i: int| 0 <= i < p.len() && (#[trigger] p[i]).0 == q[k].0;
            assert(key_before(key_of(m.app503[q[k].0 as int]), key_of(m.app503[q[j].0 as int])));
            if i < k {
                assert(p[i] == q[i]);
                assert(key_before(
                    key_of(m.app503[q[i].0 as int]),
                    key_of(m.app503[q[k].0 as int]),
                ));
            } else if i > k {
                assert(key_before(
                    key_of(m.app503[p[k].0 as int]),
                    key_of(m.app503[p[i].0 as int]),
                ));
            }
        }
        assert(j == k);
    }
}

/// Whether no two rows share their mode and what they are compared by.
pub open spec fn distinct_rows(rows: Seq<OverloadResultRow>) -> bool {
    forall|i: int, j: int|
        0 <= i < j < rows.len() && (#[trigger] rows[i]).scenario.mode == (
        #[trigger] rows[j]).scenario.mode ==> key_of(rows[i]) != key_of(rows[j])
}

/// Whether `p`, positions among the rows of `m`, and `q`, positions among those of `n`,
/// are the same comparisons of the same rows, in the same order.
pub open spec fn same_comparisons(
    m: ResultsModel,
    p: Seq<Pair>,
    n: ResultsModel,
    q: Seq<Pair>,
) -> bool {
    &&& p.len() == q.len()
    &&& forall|i: int|
        #![trigger p[i]]
        #![trigger q[i]]
        0 <= i < p.len() ==> m.app503[p[i].0 as int] == n.app503[q[i].0 as int]
            && m.reset[p[i].1 as int] == n.reset[q[i].1 as int]
}

/// The rows of one mode, in any order.
spec fn same_rows(a: Seq<OverloadResultRow>, b: Seq<OverloadResultRow>) -> bool {
    forall|row: OverloadResultRow| #[trigger] a.contains(row) <==> b.contains(row)
}

/// The rows of one mode, no two with the same key.
spec fn distinct_keys(rows: Seq<OverloadResultRow>) -> bool {
    forall|i: int, j: int|
        0 <= i < j < rows.len() ==> key_of(#[trigger] rows[i]) != key_of(#[trigger] rows[j])
}

proof fn lemma_results_of(rows: Seq<OverloadResultRow>)
    ensures
        forall|row: OverloadResultRow| #[trigger]
            results_of(rows).app503.contains(row) <==> rows.contains(row) && row.scenario.mode
                == OverloadMode::App503,
        forall|row: OverloadResultRow| #[trigger]
            results_of(rows).reset.contains(row) <==> rows.contains(row) && row.scenario.mode
                == OverloadMode::Reset,
        distinct_rows(rows) ==> distinct_keys(results_of(rows).app503) && distinct_keys(
            results_of(rows).reset,
        ),
    decreases rows.len(),
{
    if rows.len() > 0 {
        let head = rows.drop_last();
        let last = rows.last();
        lemma_results_of(head);
        let before = results_of(head);
        let after = results_of(rows);
        assert(rows =~= head.push(last));
        assert forall|row: OverloadResultRow| rows.contains(row) <==> head.contains(row) || row
            == last by {
            lemma_pushed(head, last, row);
        }
        assert forall|row: OverloadResultRow| #[trigger]
            after.app503.contains(row) <==> rows.contains(row) && row.scenario.mode
                == OverloadMode::App503 by {
            lemma_pushed(before.app503, last, row);
            lemma_pushed(head, last, row);
        }
        assert forall|row: OverloadResultRow| #[trigger]
            after.reset.contains(row) <==> rows.contains(row) && row.scenario.mode
                == OverloadMode::Reset by {
            lemma_pushed(before.reset, last, row);
            lemma_pushed(head, last, row);
        }
        if distinct_rows(rows) {
            assert(distinct_rows(head)) by {
                assert forall|i: int, j: int|
                    0 <= i < j < head.len() && (#[trigger] head[i]).scenario.mode == (
                    #[trigger] head[j]).scenario.mode implies key_of(head[i]) != key_of(
                    head[j],
                ) by {
                    assert(rows[i] == head[i] && rows[j] == head[j]);
                }
            }
            let own = match last.scenario.mode {
                OverloadMode::App503 => before.app503,
                OverloadMode::Reset => before.reset,
            };
            assert forall|i: int| 0 <= i < own.len() implies key_of(#[trigger] own[i]) != key_of(
                last,
            ) by {
                assert(own.contains(own[i]));
                assert(head.contains(own[i]));
                let k = choose|k: int| 0 <= k < head.len() && head[k] == own[i];
                assert(rows[k] == own[i] && rows[rows.len() - 1] == last);
            }
        }
    }
}

proof fn lemma_pushed(rows: Seq<OverloadResultRow>, last: OverloadResultRow, row: OverloadResultRow)
    ensures
        rows.push(last).contains(row) <==> rows.contains(row) || row == last,
{
    let more = rows.push(last);
    assert(more[rows.len() as int] == last);
    if rows.contains(row) {
        let k = choose|k: int| 0 <= k < rows.len() && rows[k] == row;
        assert(more[k] == row);
    }
}

proof fn lemma_permuted_distinct(a: Seq<OverloadResultRow>, b: Seq<OverloadResultRow>)
    requires
        a.to_multiset() == b.to_multiset(),
        distinct_rows(a),
    ensures
        distinct_rows(b),
        same_rows(a, b),
{
    a.to_multiset_ensures();
    b.to_multiset_ensures();
    assert forall|row: OverloadResultRow| #[trigger] a.contains(row) <==> b.contains(row) by {
        assert(a.contains(row) <==> a.to_multiset().count(row) > 0);
        assert(b.contains(row) <==> b.to_multiset().count(row) > 0);
    }
    assert(a.no_duplicates()) by {
        assert forall|i: int, j: int| 0 <= i < a.len() && 0 <= j < a.len() && i != j implies a[i]
            != a[j] by {
            if i < j {
                assert(a[i].scenario.mode == a[j].scenario.mode ==> key_of(a[i]) != key_of(a[j]));
            } else {
                assert(a[j].scenario.mode == a[i].scenario.mode ==> key_of(a[j]) != key_of(a[i]));
            }
        }
    }
    a.lemma_multiset_has_no_duplicates();
    b.lemma_multiset_has_no_duplicates_conv();
    assert forall|i: int, j: int|
        0 <= i < j < b.len() && (#[trigger] b[i]).scenario.mode == (
        #[trigger] b[j]).scenario.mode implies key_of(b[i]) != key_of(b[j]) by {
        assert(b.contains(b[i]) && b.contains(b[j]));
        assert(a.contains(b[i]) && a.contains(b[j]));
        let x = choose|x: int| 0 <= x < a.len() && a[x] == b[i];
        let y = choose|y: int| 0 <= y < a.len() && a[y] == b[j];
        assert(b[i] != b[j]);
        if x < y {
            assert(key_of(a[x]) != key_of(a[y]));
        } else {
            assert(key_of(a[y]) != key_of(a[x]));
        }
    }
}

/// A row that is compared here is compared there, with the same partner.
proof fn lemma_compared_there(m: ResultsModel, n: ResultsModel, a: int) -> (b: int)
    requires
        same_rows(m.app503, n.app503),
        same_rows(m.reset, n.reset),
        distinct_keys(n.app503),
        distinct_keys(n.reset),
        compared(m, a),
    ensures
        compared(n, b),
        n.app503[b] == m.app503[a],
        n.reset[partner(n, b)] == m.reset[partner(m, a)],
{
    let row = m.app503[a];
    let key = key_of(row);
    let other = m.reset[partner(m, a)];
    lemma_last_with(m.reset, key);
    assert(m.app503.contains(row) && m.reset.contains(other));
    assert(n.app503.contains(row) && n.reset.contains(other));
    let b = choose|b: int| 0 <= b < n.app503.len() && n.app503[b] == row;
    let c = choose|c: int| 0 <= c < n.reset.len() && n.reset[c] == other;
    lemma_last_with(n.app503, key);
    lemma_last_with(n.reset, key);
    let x = last_with(n.app503, key);
    let y = last_with(n.reset, key);
    assert(x == b) by {
        if b < x {
            assert(key_of(n.app503[b]) != key_of(n.app503[x]));
        }
    }
    assert(y == c) by {
        if c < y {
            assert(key_of(n.reset[c]) != key_of(n.reset[y]));
        }
    }
    b
}

proof fn lemma_permuted_prefix(
    m: ResultsModel,
    p: Seq<Pair>,
    n: ResultsModel,
    q: Seq<Pair>,
    count: nat,
)
    requires
        same_rows(m.app503, n.app503),
        same_rows(m.reset, n.reset),
        distinct_keys(m.app503),
        distinct_keys(m.reset),
        distinct_keys(n.app503),
        distinct_keys(n.reset),
        all_comparisons(m, p),
        all_comparisons(n, q),
        count <= p.len(),
    ensures
        count <= q.len(),
        forall|i: int|
            #![trigger p[i]]
            #![trigger q[i]]
            0 <= i < count ==> m.app503[p[i].0 as int] == n.app503[q[i].0 as int]
                && m.reset[p[i].1 as int] == n.reset[q[i].1 as int],
    decreases count,
{
    if count > 0 {
        let k = count - 1;
        lemma_permuted_prefix(m, p, n, q, k as nat);
        assert(compared(m, p[k].0 as int));
        let b = lemma_compared_there(m, n, p[k].0 as int);
        let j = choose|j: int| 0 <= j < q.len() && (#[trigger] q[j]).0 == b;
        if j < k {
            assert(m.app503[p[j].0 as int] == n.app503[q[j].0 as int]);
            assert(key_before(key_of(m.app503[p[j].0 as int]), key_of(m.app503[p[k].0 as int])));
        }
        if j > k {
            assert(compared(n, q[k].0 as int));
            let a = lemma_compared_there(n, m, q[k].0 as int);
            let i = choose|i: int| 0 <= i < p.len() && (#[trigger] p[i]).0 == a;
            assert(key_before(key_of(n.app503[q[k].0 as int]), key_of(n.app503[q[j].0 as int])));
            if i < k {
                assert(m.app503[p[i].0 as int] == n.app503[q[i].0 as int]);
                assert(key_before(
                    key_of(n.app503[q[i].0 as int]),
                    key_of(n.app503[q[k].0 as int]),
                ));
            } else if i > k {
                assert(key_before(
                    key_of(m.app503[p[k].0 as int]),
                    key_of(m.app503[p[i].0 as int]),
                ));
            }
        }
        assert(j == k);
    }
}

proof fn lemma_claim_there(m: ResultsModel, n: ResultsModel)
    requires
        same_rows(m.app503, n.app503),
        same_rows(m.reset, n.reset),
        distinct_keys(m.app503),
        distinct_keys(m.reset),
        distinct_keys(n.app503),
        distinct_keys(n.reset),
        claim_holds(m),
    ensures
        claim_holds(n),
{
    let a = choose|a: int| compared(m, a);
    let b = lemma_compared_there(m, n, a);
    assert(compared(n, b));
    assert forall|c: int| #[trigger] compared(n, c) implies costs_less(
        n.app503[c],
        n.reset[partner(n, c)],
    ) by {
        let d = lemma_compared_there(n, m, c);
        assert(compared(m, d));
    }
}

/// The order in which runs with different keys were made changes neither the
/// comparisons nor the outcome.
pub proof fn law_comparisons_ignore_order(
    rows: Seq<OverloadResultRow>,
    others: Seq<OverloadResultRow>,
    p: Seq<Pair>,
    q: Seq<Pair>,
)
    requires
        rows.to_multiset() == others.to_multiset(),
        distinct_rows(rows),
        all_comparisons(results_of(rows), p),
        all_comparisons(results_of(others), q),
    ensures
        same_comparisons(results_of(rows), p, results_of(others), q),
        claim_holds(results_of(rows)) == claim_holds(results_of(others)),
{
    let m = results_of(rows);
    let n = results_of(others);
    lemma_permuted_distinct(rows, others);
    lemma_results_of(rows);
    lemma_results_of(others);
    assert forall|row: OverloadResultRow| #[trigger] m.app503.contains(row)
        <==> n.app503.contains(row) by {
        assert(rows.contains(row) <==> others.contains(row));
    }
    assert forall|row: OverloadResultRow| #[trigger] m.reset.contains(row)
        <==> n.reset.contains(row) by {
        assert(rows.contains(row) <==> others.contains(row));
    }
    lemma_permuted_prefix(m, p, n, q, p.len());
    lemma_permuted_prefix(n, q, m, p, q.len());
    if claim_holds(m) {
        lemma_claim_there(m, n);
    }
    if claim_holds(n) {
        lemma_claim_there(n, m);
    }
}

/// Whether resetting cost less in every comparison, of which there is at least one.
pub fn overload_claim_supported(results: &OverloadResults) -> (r: bool)
    ensures
        r == claim_holds(results@),
{
    let pairs = overload_comparisons(results);
    let ghost m = results@;
    if pairs.len() == 0 {
        proof {
            assert forall|a: int| !#[trigger] compared(m, a) by {
                if compared(m, a) {
                    let i = choose|i: int| 0 <= i < pairs@.len() && (#[trigger] pairs@[i]).0 == a;
                }
            }
        }
        return false;
    }
    assert(compared(m, pairs@[0].0 as int));
    let mut i: usize = 0;
    while i < pairs.len()
        invariant
            i <= pairs@.len(),
            m == results@,
            all_comparisons(m, pairs@),
            exists|a: int| compared(m, a),
            forall|k: int|
                0 <= k < i ==> costs_less(
                    m.app503[(#[trigger] pairs@[k]).0 as int],
                    m.reset[pairs@[k].1 as int],
                ),
        decreases pairs@.len() - i,
    {
        assert(compared(m, pairs@[i as int].0 as int));
        proof {
            lemma_last_with(m.reset, key_of(m.app503[pairs@[i as int].0 as int]));
        }
        let app = &results.app503[pairs[i].0];
        let reset = &results.reset[pairs[i].1];
        let less = reset.server.bytes_read < app.server.bytes_read && reset.server_ms.bits
            < app.server_ms.bits && reset.rejection_mean_ms.bits < app.rejection_mean_ms.bits;
        if !less {
            return false;
        }
        i = i + 1;
    }
    proof {
        assert forall|a: int| #[trigger] compared(m, a) implies costs_less(
            m.app503[a],
            m.reset[partner(m, a)],
        ) by {
            let k = choose|k: int| 0 <= k < pairs@.len() && (#[trigger] pairs@[k]).0 == a;
            assert(costs_less(m.app503[pairs@[k].0 as int], m.reset[pairs@[k].1 as int]));
        }
    }
    true
}

// ---------------------------------------------------------------------------
// The summary
// ---------------------------------------------------------------------------

/// A row of a table.
pub open spec fn table_row(cells: Seq<Seq<char>>) -> Seq<char>
    decreases cells.len(),
{
    if cells.len() == 0 {
        seq!['|']
    } else {
        table_row(cells.drop_last()).push(' ') + cells.last() + seq![' ', '|']
    }
}

fn table_line(cells: &Vec<String>) -> (r: String)
    ensures
        r@ == table_row(cells.deep_view()),
{
    let ghost all = cells.deep_view();
    let mut out = String::new();
    out.push('|');
    assert(all.take(0) =~= seq![]);
    assert(out@ =~= seq!['|']);
    let mut i: usize = 0;
    while i < cells.len()
        invariant
            i <= cells@.len(),
            all == cells.deep_view(),
            out@ == table_row(all.take(i as int)),
        decreases cells@.len() - i,
    {
        assert(all.take(i + 1).drop_last() =~= all.take(i as int));
        assert(all.take(i + 1).last() == cells@[i as int]@);
        let ghost before = out@;
        out.push(' ');
        out.append(cells[i].as_str());
        out.push(' ');
        out.push('|');
        assert(out@ =~= before.push(' ') + cells@[i as int]@ + seq![' ', '|']);
        i = i + 1;
    }
    assert(all.take(i as int) =~= all);
    out
}

/// The cells of a comparison.
pub open spec fn comparison_cells(app: OverloadResultRow, reset: OverloadResultRow) -> Seq<
    Seq<char>,
> {
    seq![
        decimal(app.scenario.payload_size as nat),
        decimal(app.scenario.concurrency as nat),
        decimal(app.scenario.threshold as nat),
        decimal(app.server.bytes_read as nat),
        decimal(reset.server.bytes_read as nat),
        app.server_ms.text@,
        reset.server_ms.text@,
        app.cpu_percent@,
        reset.cpu_percent@,
        app.rejection_mean_ms.text@,
        reset.rejection_mean_ms.text@,
    ]
}

fn comparison_line(app: &OverloadResultRow, reset: &OverloadResultRow) -> (r: String)
    ensures
        r@ == table_row(comparison_cells(*app, *reset)),
{
    let cells: Vec<String> = vec![
        count_text(app.scenario.payload_size),
        count_text(app.scenario.concurrency),
        count_text(app.scenario.threshold),
        count_text(app.server.bytes_read),
        count_text(reset.server.bytes_read),
        app.server_ms.text.clone(),
        reset.server_ms.text.clone(),
        app.cpu_percent.clone(),
        reset.cpu_percent.clone(),
        app.rejection_mean_ms.text.clone(),
        reset.rejection_mean_ms.text.clone(),
    ];
    assert(cells.deep_view() =~= comparison_cells(*app, *reset));
    table_line(&cells)
}

/// The summary above its comparisons.
pub open spec fn summary_head(supported: bool) -> Seq<Seq<char>> {
    seq![
        "# QUIC Overload-Handling Experiment"@,
        ""@,
        "Claim: QUIC stream-level rejection can reduce Control Plane overload processing."@,
        ""@,
        "Result:"@,
        "- Supported if reset mode shows lower server bytes read, lower server processing time, and lower overload rejection latency."@,
        "- Not fully supported if the client requires standard HTTP 429/503 semantics."@,
        "- Additional mapping is needed from QUIC stream error code to retry/backoff behavior."@,
        ""@,
        if supported {
            "Observed outcome: supported by the completed matched scenarios."@
        } else {
            "Observed outcome: not consistently supported by the completed matched scenarios."@
        },
        ""@,
        "| Payload bytes | Concurrency | Threshold | app503 bytes read | reset bytes read | app503 server ms | reset server ms | app503 CPU % | reset CPU % | app503 reject mean ms | reset reject mean ms |"@,
        "| ---: | ---: | ---: | ---: | ---: | ---: | ---: | ---: | ---: | ---: | ---: |"@,
    ]
}

/// The lines of the summary.
pub open spec fn summary_lines(m: ResultsModel, pairs: Seq<Pair>) -> Seq<Seq<char>> {
    summary_head(claim_holds(m)) + pairs.map_values(
        |pair: Pair|
            table_row(comparison_cells(m.app503[pair.0 as int], m.reset[pair.1 as int])),
    )
}

fn head_text(supported: bool) -> (r: String)
    ensures
        r@ == all_lines(summary_head(supported)),
{
    let observed = if supported {
        "Observed outcome: supported by the completed matched scenarios."
    } else {
        "Observed outcome: not consistently supported by the completed matched scenarios."
    };
    let lines: Vec<&str> = vec![
        "# QUIC Overload-Handling Experiment",
        "",
        "Claim: QUIC stream-level rejection can reduce Control Plane overload processing.",
        "",
        "Result:",
        "- Supported if reset mode shows lower server bytes read, lower server processing time, and lower overload rejection latency.",
        "- Not fully supported if the client requires standard HTTP 429/503 semantics.",
        "- Additional mapping is needed from QUIC stream error code to retry/backoff behavior.",
        "",
        observed,
        "",
        "| Payload bytes | Concurrency | Threshold | app503 bytes read | reset bytes read | app503 server ms | reset server ms | app503 CPU % | reset CPU % | app503 reject mean ms | reset reject mean ms |",
        "| ---: | ---: | ---: | ---: | ---: | ---: | ---: | ---: | ---: | ---: | ---: |",
    ];
    let ghost wanted = summary_head(supported);
    let mut out = String::new();
    let mut i: usize = 0;
    assert(wanted.take(0) =~= Seq::<Seq<char>>::empty());
    assert(out@ =~= Seq::<char>::empty());
    while i < lines.len()
        invariant
            i <= lines@.len(),
            lines@.len() == wanted.len(),
            forall|k: int| 0 <= k < lines@.len() ==> (#[trigger] lines@[k])@ == wanted[k],
            out@ == all_lines(wanted.take(i as int)),
        decreases lines@.len() - i,
    {
        proof {
            lemma_next_line(wanted, i as int);
        }
        assert(lines@[i as int]@ == wanted[i as int]);
        add_line(&mut out, lines[i]);
        i = i + 1;
    }
    assert(wanted.take(i as int) =~= wanted);
    out
}

/// Writes the summary.
pub fn write_summary_report(results: &OverloadResults) -> (r: String)
    ensures
        exists|pairs: Seq<Pair>|
            all_comparisons(results@, pairs) && r@ == all_lines(
                #[trigger] summary_lines(results@, pairs),
            ),
{
    let supported = overload_claim_supported(results);
    let pairs = overload_comparisons(results);
    let ghost m = results@;
    let ghost wanted = summary_lines(m, pairs@);
    let ghost head = summary_head(supported);
    let mut out = head_text(supported);
    assert(wanted.take(head.len() as int) =~= head);
    let mut i: usize = 0;
    while i < pairs.len()
        invariant
            i <= pairs@.len(),
            m == results@,
            wanted == summary_lines(m, pairs@),
            head == summary_head(claim_holds(m)),
            all_comparisons(m, pairs@),
            out@ == all_lines(wanted.take(head.len() + i)),
        decreases pairs@.len() - i,
    {
        assert(compared(m, pairs@[i as int].0 as int));
        proof {
            lemma_last_with(m.reset, key_of(m.app503[pairs@[i as int].0 as int]));
            lemma_next_line(wanted, head.len() + i);
        }
        let line = comparison_line(&results.app503[pairs[i].0], &results.reset[pairs[i].1]);
        assert(wanted[head.len() + i] == line@);
        add_line(&mut out, line.as_str());
        i = i + 1;
    }
    assert(wanted.take(head.len() + i) =~= wanted);
    out
}

// ---------------------------------------------------------------------------
// The input of the charts
// ---------------------------------------------------------------------------

/// What a chart calls the load of a row: its percentage, or its threshold where it
/// has none.
pub open spec fn chart_label(row: OverloadResultRow) -> Seq<char> {
    if percent_positive(row.scenario.reject_percent@) {
        seq!['r'] + row.reject_percent_label@
    } else {
        seq!['t'] + decimal(row.scenario.threshold as nat)
    }
}

/// The fields that a chart takes of a row.
pub open spec fn chart_fields(row: OverloadResultRow) -> Seq<Seq<char>> {
    seq![
        row.scenario.mode.name(),
        decimal(row.scenario.payload_size as nat),
        decimal(row.scenario.concurrency as nat),
        chart_label(row),
        decimal(row.repeat_index as nat),
        row.latency_p95_exact@,
        decimal(row.server.bytes_read as nat),
    ]
}

/// Lines with a line feed between them.
pub open spec fn lines_between(lines: Seq<Seq<char>>) -> Seq<char>
    decreases lines.len(),
{
    if lines.len() == 0 {
        seq![]
    } else if lines.len() == 1 {
        lines[0]
    } else {
        lines_between(lines.drop_last()).push('\n') + lines.last()
    }
}

/// The lines that the charts are made from: those of the one mode, then those of the
/// other.
pub open spec fn chart_lines(m: ResultsModel) -> Seq<Seq<char>> {
    (m.app503 + m.reset).map_values(|row: OverloadResultRow| comma_joined(chart_fields(row)))
}

fn chart_line(row: &OverloadResultRow) -> (r: String)
    ensures
        r@ == comma_joined(chart_fields(*row)),
{
    let mut label = String::new();
    if row.scenario.reject_percent.is_positive() {
        label.push('r');
        label.append(row.reject_percent_label.as_str());
    } else {
        label.push('t');
        label.append(count_text(row.scenario.threshold).as_str());
    }
    assert(label@ =~= chart_label(*row));
    let fields: Vec<String> = vec![
        row.scenario.mode.as_str().to_owned(),
        count_text(row.scenario.payload_size),
        count_text(row.scenario.concurrency),
        label,
        count_text(row.repeat_index),
        row.latency_p95_exact.clone(),
        count_text(row.server.bytes_read),
    ];
    assert(fields.deep_view() =~= chart_fields(*row));
    join_commas(&fields)
}

/// Writes what the charts are made from.
pub fn chart_csv(results: &OverloadResults) -> (r: String)
    ensures
        r@ == lines_between(chart_lines(results@)),
{
    let first: usize = results.app503.len();
    let ghost wanted = chart_lines(results@);
    let mut out = String::new();
    let mut i: usize = 0;
    let mut k: usize = 0;
    assert(wanted.take(0) =~= Seq::<Seq<char>>::empty());
    assert(out@ =~= Seq::<char>::empty());
    while i < first
        invariant
            i <= first,
            first == results.app503@.len(),
            wanted == chart_lines(results@),
            out@ == lines_between(wanted.take(i as int)),
        decreases first - i,
    {
        let line = chart_line(&results.app503[i]);
        assert(wanted[i as int] == line@);
        add_between(&mut out, line.as_str(), i > 0);
        proof {
            lemma_line_between(wanted, i as int);
        }
        i = i + 1;
    }
    while k < results.reset.len()
        invariant
            k <= results.reset@.len(),
            first == results.app503@.len(),
            wanted == chart_lines(results@),
            out@ == lines_between(wanted.take(first + k)),
        decreases results.reset@.len() - k,
    {
        let line = chart_line(&results.reset[k]);
        assert(wanted[first + k] == line@);
        add_between(&mut out, line.as_str(), first > 0 || k > 0);
        proof {
            lemma_line_between(wanted, first + k);
        }
        k = k + 1;
    }
    assert(wanted.take(first + k) =~= wanted);
    out
}

fn add_between(out: &mut String, line: &str, more: bool)
    ensures
        final(out)@ == if more {
            old(out)@.push('\n') + line@
        } else {
            old(out)@ + line@
        },
{
    if more {
        out.push('\n');
    }
    out.append(line);
}

proof fn lemma_line_between(lines: Seq<Seq<char>>, i: int)
    requires
        0 <= i < lines.len(),
    ensures
        lines_between(lines.take(i + 1)) == if i > 0 {
            lines_between(lines.take(i)).push('\n') + lines[i]
        } else {
            lines_between(lines.take(i)) + lines[i]
        },
{
    assert(lines.take(i + 1).drop_last() =~= lines.take(i));
    if i == 0 {
        assert(lines.take(0) =~= Seq::<Seq<char>>::empty());
        assert(lines_between(lines.take(1)) =~= lines_between(lines.take(0)) + lines[0]);
    }
}

// ---------------------------------------------------------------------------
// What the claim rests on
// ---------------------------------------------------------------------------

/// Whether two runs were made alike but for their mode: with the same payload size,
/// concurrency, threshold and percentage, in the same repetition.
pub open spec fn same_case(a: OverloadResultRow, b: OverloadResultRow) -> bool {
    &&& a.scenario.payload_size == b.scenario.payload_size
    &&& a.scenario.concurrency == b.scenario.concurrency
    &&& a.scenario.threshold == b.scenario.threshold
    &&& thousandths(a.scenario.reject_percent@) as usize == thousandths(
        b.scenario.reject_percent@,
    ) as usize
    &&& a.repeat_index == b.repeat_index
}

/// Whether no run after the one at `i` was made like it.
pub open spec fn latest(rows: Seq<OverloadResultRow>, i: int) -> bool {
    forall|k: int| i < k < rows.len() ==> !same_case(#[trigger] rows[k], rows[i])
}

/// Whether two runs stand against each other: they were made alike, and none of either
/// mode was made like them later.
pub open spec fn stand_against(m: ResultsModel, a: int, r: int) -> bool {
    &&& 0 <= a < m.app503.len() && 0 <= r < m.reset.len()
    &&& same_case(m.app503[a], m.reset[r])
    &&& latest(m.app503, a)
    &&& latest(m.reset, r)
}

proof fn lemma_latest(rows: Seq<OverloadResultRow>, i: int)
    requires
        0 <= i < rows.len(),
    ensures
        latest(rows, i) <==> last_with(rows, key_of(rows[i])) == i,
{
    let key = key_of(rows[i]);
    lemma_last_with(rows, key);
    let last = last_with(rows, key);
    if latest(rows, i) {
        assert(last >= i);
        if last > i {
            assert(same_case(rows[last], rows[i]));
        }
    } else {
        let k = choose|k: int| i < k < rows.len() && same_case(#[trigger] rows[k], rows[i]);
        assert(key_of(rows[k]) == key);
    }
}

proof fn lemma_stand_against(m: ResultsModel, a: int, r: int)
    ensures
        stand_against(m, a, r) <==> compared(m, a) && partner(m, a) == r,
{
    if 0 <= a < m.app503.len() {
        let key = key_of(m.app503[a]);
        lemma_latest(m.app503, a);
        lemma_last_with(m.reset, key);
        if 0 <= r < m.reset.len() {
            lemma_latest(m.reset, r);
        }
    }
}

/// The claim is supported exactly when some runs stand against each other, and whichever
/// do, resetting read fewer bytes, took the server less time and let the client know
/// sooner.
pub proof fn law_claim(m: ResultsModel)
    ensures
        claim_holds(m) <==> {
            &&& exists|a: int, r: int| stand_against(m, a, r)
            &&& forall|a: int, r: int| #[trigger]
                stand_against(m, a, r) ==> m.reset[r].server.bytes_read
                    < m.app503[a].server.bytes_read && m.reset[r].server_ms.bits
                    < m.app503[a].server_ms.bits && m.reset[r].rejection_mean_ms.bits
                    < m.app503[a].rejection_mean_ms.bits
        },
{
    assert forall|a: int, r: int| #[trigger] stand_against(m, a, r) implies compared(m, a)
        && partner(m, a) == r by {
        lemma_stand_against(m, a, r);
    }
    assert forall|a: int| #[trigger] compared(m, a) implies stand_against(m, a, partner(m, a)) by {
        lemma_stand_against(m, a, partner(m, a));
    }
    if exists|a: int| compared(m, a) {
        let a = choose|a: int| compared(m, a);
        assert(stand_against(m, a, partner(m, a)));
    }
    if exists|a: int, r: int| stand_against(m, a, r) {
        let (a, r) = choose|a: int, r: int| stand_against(m, a, r);
        assert(compared(m, a));
    }
}

/// One comparison in which resetting did not read fewer bytes, did not take less time, or
/// did not let the client know sooner, is enough against the claim, however many others
/// speak for it.
pub proof fn law_one_case_refutes(m: ResultsModel, a: int, r: int)
    requires
        stand_against(m, a, r),
        m.reset[r].server.bytes_read >= m.app503[a].server.bytes_read || m.reset[r].server_ms.bits
            >= m.app503[a].server_ms.bits || m.reset[r].rejection_mean_ms.bits
            >= m.app503[a].rejection_mean_ms.bits,
    ensures
        !claim_holds(m),
{
    law_claim(m);
}

/// Two more runs that stand against each other decide over a claim that was supported:
/// it stays so exactly when resetting cost less in them too.
pub proof fn law_claim_after_two_more(
    m: ResultsModel,
    app: OverloadResultRow,
    reset: OverloadResultRow,
)
    requires
        app.scenario.mode == OverloadMode::App503,
        reset.scenario.mode == OverloadMode::Reset,
        same_case(app, reset),
    ensures
        ({
            let less = reset.server.bytes_read < app.server.bytes_read && reset.server_ms.bits
                < app.server_ms.bits && reset.rejection_mean_ms.bits < app.rejection_mean_ms.bits;
            let next = with_row(with_row(m, app), reset);
            &&& !less ==> !claim_holds(next)
            &&& claim_holds(m) && less ==> claim_holds(next)
            &&& with_row(with_row(m, reset), app) == next
        }),
{
    let next = with_row(with_row(m, app), reset);
    let x = m.app503.len() as int;
    let y = m.reset.len() as int;
    assert(stand_against(next, x, y));
    law_claim(next);
    law_claim(m);
    if claim_holds(m) {
        assert forall|a: int, r: int| #[trigger] stand_against(next, a, r) && !(a == x && r
            == y) implies stand_against(m, a, r) by {
            if a == x {
                assert(same_case(next.reset[y], next.reset[r]));
                assert(r == y);
            }
            if r == y {
                assert(same_case(next.app503[x], next.app503[a]));
                assert(a == x);
            }
            assert(next.app503[a] == m.app503[a] && next.reset[r] == m.reset[r]);
            assert forall|k: int| a < k < m.app503.len() implies !same_case(
                #[trigger] m.app503[k],
                m.app503[a],
            ) by {
                assert(next.app503[k] == m.app503[k]);
            }
            assert forall|k: int| r < k < m.reset.len() implies !same_case(
                #[trigger] m.reset[k],
                m.reset[r],
            ) by {
                assert(next.reset[k] == m.reset[k]);
            }
        }
    }
    assert(with_row(with_row(m, reset), app) =~= next);
}

/// The rows of a mode are all the runs of that mode, in their order.
pub proof fn law_rows_by_mode(rows: Seq<OverloadResultRow>)
    ensures
        results_of(rows).app503 == rows.filter(
            |row: OverloadResultRow| row.scenario.mode == OverloadMode::App503,
        ),
        results_of(rows).reset == rows.filter(
            |row: OverloadResultRow| row.scenario.mode == OverloadMode::Reset,
        ),
    decreases rows.len(),
{
    reveal(Seq::filter);
    if rows.len() > 0 {
        law_rows_by_mode(rows.drop_last());
    } else {
        assert(results_of(rows).app503 =~= Seq::<OverloadResultRow>::empty());
        assert(results_of(rows).reset =~= Seq::<OverloadResultRow>::empty());
    }
}

/// The comparisons are exactly the runs that stand against each other, each once, by
/// ascending payload size, then concurrency, then threshold, then percentage, then
/// repetition.
pub proof fn law_comparisons(m: ResultsModel, pairs: Seq<Pair>, a: usize, r: usize)
    requires
        all_comparisons(m, pairs),
    ensures
        pairs.contains((a, r)) <==> stand_against(m, a as int, r as int),
        forall|i: int, j: int|
            0 <= i < j < pairs.len() ==> {
                let x = m.app503[(#[trigger] pairs[i]).0 as int];
                let y = m.app503[(#[trigger] pairs[j]).0 as int];
                let px = thousandths(x.scenario.reject_percent@) as usize;
                let py = thousandths(y.scenario.reject_percent@) as usize;
                &&& x.scenario.payload_size <= y.scenario.payload_size
                &&& x.scenario.payload_size == y.scenario.payload_size ==> {
                    &&& x.scenario.concurrency <= y.scenario.concurrency
                    &&& x.scenario.concurrency == y.scenario.concurrency ==> {
                        &&& x.scenario.threshold <= y.scenario.threshold
                        &&& x.scenario.threshold == y.scenario.threshold ==> {
                            &&& px <= py
                            &&& px == py ==> x.repeat_index < y.repeat_index
                        }
                    }
                }
            },
{
    lemma_stand_against(m, a as int, r as int);
    if pairs.contains((a, r)) {
        let i = choose|i: int| 0 <= i < pairs.len() && pairs[i] == (a, r);
        assert(compared(m, pairs[i].0 as int));
    }
    if compared(m, a as int) && partner(m, a as int) == r {
        let i = choose|i: int| 0 <= i < pairs.len() && (#[trigger] pairs[i]).0 == a as int;
        assert(pairs[i] == (a, r));
    }
    assert forall|i: int, j: int| 0 <= i < j < pairs.len() implies key_before(
        key_of(m.app503[(#[trigger] pairs[i]).0 as int]),
        key_of(m.app503[(#[trigger] pairs[j]).0 as int]),
    ) by {}
}

/// A summary has the same lines above its comparisons whatever came of them, but for the
/// one that says whether the claim is supported; below them there is a line for each.
pub proof fn law_summary(m: ResultsModel, pairs: Seq<Pair>)
    ensures
        ({
            let all = summary_lines(m, pairs);
            &&& all.len() == 13 + pairs.len()
            &&& claim_holds(m) <==> all[9]
                == "Observed outcome: supported by the completed matched scenarios."@
            &&& !claim_holds(m) <==> all[9]
                == "Observed outcome: not consistently supported by the completed matched scenarios."@
            &&& forall|i: int|
                0 <= i < 13 && i != 9 ==> #[trigger] summary_head(true)[i] == summary_head(false)[i]
        }),
{
    reveal_strlit("Observed outcome: supported by the completed matched scenarios.");
    reveal_strlit(
        "Observed outcome: not consistently supported by the completed matched scenarios.",
    );
    assert("Observed outcome: supported by the completed matched scenarios."@.len()
        != "Observed outcome: not consistently supported by the completed matched scenarios."@.len());
}

/// A chart gives the load of a row as its percentage behind an `r` where it has one above
/// zero, and otherwise as its threshold behind a `t`.
pub proof fn law_chart_label(row: OverloadResultRow)
    ensures
        chart_label(row).len() > 0,
        chart_label(row)[0] == 'r' || chart_label(row)[0] == 't',
        chart_label(row)[0] == 'r' <==> percent_positive(row.scenario.reject_percent@),
        chart_label(row)[0] == 'r' ==> chart_label(row).skip(1) == row.reject_percent_label@,
        chart_label(row)[0] == 't' ==> unsigned_number(chart_label(row).skip(1), usize::MAX as nat)
            == Some(row.scenario.threshold as nat),
{
    law_read_undoes_print(row.scenario.threshold as nat, usize::MAX as nat);
    assert((seq!['r'] + row.reject_percent_label@).skip(1) =~= row.reject_percent_label@);
    assert((seq!['t'] + decimal(row.scenario.threshold as nat)).skip(1) =~= decimal(
        row.scenario.threshold as nat,
    ));
}

/// Lines that hold no line feed are read back from what the charts are made from.
pub proof fn law_lines_between(all: Seq<Seq<char>>)
    requires
        all.len() > 0,
        forall|i: int| 0 <= i < all.len() ==> !(#[trigger] all[i]).contains('\n'),
    ensures
        split(lines_between(all), '\n') == all,
    decreases all.len(),
{
    let last = all[all.len() - 1];
    law_split_plain(last, '\n');
    if all.len() > 1 {
        let rest = all.drop_last();
        assert forall|i: int| 0 <= i < rest.len() implies !(#[trigger] rest[i]).contains('\n') by {
            assert(rest[i] == all[i]);
        }
        law_lines_between(rest);
        law_split_concat(lines_between(rest), last, '\n');
    }
    assert(split(lines_between(all), '\n') =~= all);
}

/// The columns of the overload report. There is a line for them, and then one
/// for each row, with its fields.
pub proof fn law_overload_columns(rows: Seq<OverloadResultRow>, i: int)
    ensures
        overload_columns() == seq![
            "mode"@,
            "total_requests"@,
            "concurrency"@,
            "payload_size_bytes"@,
            "threshold"@,
            "reject_percent"@,
            "repeat_index"@,
            "duration_ms"@,
            "throughput_req_s"@,
            "successes"@,
            "rejected"@,
            "reset_streams"@,
            "errors"@,
            "latency_mean_ms"@,
            "latency_p50_ms"@,
            "latency_p95_ms"@,
            "latency_p99_ms"@,
            "latency_min_ms"@,
            "latency_max_ms"@,
            "rejection_latency_mean_ms"@,
            "rejection_latency_p95_ms"@,
            "rejection_latency_p99_ms"@,
            "server_bytes_read"@,
            "server_handling_time_ms"@,
            "server_avg_handling_time_ms"@,
            "server_accepted_requests"@,
            "server_successful_requests"@,
            "server_app_rejections"@,
            "server_reset_rejections"@,
            "server_peak_inflight"@,
            "cpu_user_ms"@,
            "cpu_system_ms"@,
            "cpu_total_ms"@,
            "cpu_percent"@,
            "rss_bytes_delta"@,
            "maxrss_kb_after"@,
        ],
        overload_lines(rows).len() == rows.len() + 1,
        overload_lines(rows)[0] == comma_joined(overload_columns()),
        0 <= i < rows.len() ==> overload_lines(rows)[i + 1] == comma_joined(
            overload_fields_of(rows[i]),
        ),
{
}

/// What stands under the columns of the overload report, in the first half of them:
/// numbers as they are read back, and texts as they are.
pub proof fn law_overload_first_fields(row: OverloadResultRow)
    ensures
        ({
            let f = overload_fields_of(row);
            &&& f.len() == 36
            &&& f[0] == row.scenario.mode.name()
            &&& reads_as(f[1], row.scenario.total_requests as nat)
            &&& reads_as(f[2], row.scenario.concurrency as nat)
            &&& reads_as(f[3], row.scenario.payload_size as nat)
            &&& reads_as(f[4], row.scenario.threshold as nat)
            &&& f[5] == row.reject_percent@
            &&& reads_as(f[6], row.repeat_index as nat)
            &&& f[7] == row.duration_ms@
            &&& f[8] == row.throughput@
            &&& reads_as(f[9], row.successes as nat)
            &&& reads_as(f[10], row.rejected as nat)
            &&& reads_as(f[11], row.reset_streams as nat)
            &&& reads_as(f[12], row.errors as nat)
            &&& f[13] == row.latency.mean@
            &&& f[14] == row.latency.p50@
            &&& f[15] == row.latency.p95@
            &&& f[16] == row.latency.p99@
            &&& f[17] == row.latency.min@
        }),
{
    let f = overload_fields_of(row);
    assert(f.len() == 36);
    assert(f[0] == row.scenario.mode.name());
    assert(f[1] == decimal(row.scenario.total_requests as nat));
    law_prints_read(row.scenario.total_requests as nat, 0);
    assert(f[2] == decimal(row.scenario.concurrency as nat));
    law_prints_read(row.scenario.concurrency as nat, 0);
    assert(f[3] == decimal(row.scenario.payload_size as nat));
    law_prints_read(row.scenario.payload_size as nat, 0);
    assert(f[4] == decimal(row.scenario.threshold as nat));
    law_prints_read(row.scenario.threshold as nat, 0);
    assert(f[5] == row.reject_percent@);
    assert(f[6] == decimal(row.repeat_index as nat));
    law_prints_read(row.repeat_index as nat, 0);
    assert(f[7] == row.duration_ms@);
    assert(f[8] == row.throughput@);
    assert(f[9] == decimal(row.successes as nat));
    law_prints_read(row.successes as nat, 0);
    assert(f[10] == decimal(row.rejected as nat));
    law_prints_read(row.rejected as nat, 0);
    assert(f[11] == decimal(row.reset_streams as nat));
    law_prints_read(row.reset_streams as nat, 0);
    assert(f[12] == decimal(row.errors as nat));
    law_prints_read(row.errors as nat, 0);
    assert(f[13] == row.latency.mean@);
    assert(f[14] == row.latency.p50@);
    assert(f[15] == row.latency.p95@);
    assert(f[16] == row.latency.p99@);
    assert(f[17] == row.latency.min@);
}

/// What stands under the columns of the overload report, in the second half of them:
/// numbers as they are read back, and texts as they are.
pub proof fn law_overload_last_fields(row: OverloadResultRow)
    ensures
        ({
            let f = overload_fields_of(row);
            &&& f.len() == 36
            &&& f[18] == row.latency.max@
            &&& f[19] == row.rejection_mean_ms.text@
            &&& f[20] == row.rejection_p95_ms@
            &&& f[21] == row.rejection_p99_ms@
            &&& reads_as(f[22], row.server.bytes_read as nat)
            &&& f[23] == row.server_ms.text@
            &&& f[24] == row.server_avg_ms@
            &&& reads_as(f[25], row.server.accepted_requests as nat)
            &&& reads_as(f[26], row.server.successful_requests as nat)
            &&& reads_as(f[27], row.server.app_rejections as nat)
            &&& reads_as(f[28], row.server.reset_rejections as nat)
            &&& reads_as(f[29], row.server.peak_inflight as nat)
            &&& f[30] == row.cpu_user_ms@
            &&& f[31] == row.cpu_system_ms@
            &&& f[32] == row.cpu_total_ms@
            &&& f[33] == row.cpu_percent@
            &&& reads_as_signed(f[34], row.rss_bytes_delta as int)
            &&& reads_as_signed(f[35], row.maxrss_kb_after as int)
        }),
{
    let f = overload_fields_of(row);
    assert(f.len() == 36);
    assert(f[18] == row.latency.max@);
    assert(f[19] == row.rejection_mean_ms.text@);
    assert(f[20] == row.rejection_p95_ms@);
    assert(f[21] == row.rejection_p99_ms@);
    assert(f[22] == decimal(row.server.bytes_read as nat));
    law_prints_read(row.server.bytes_read as nat, 0);
    assert(f[23] == row.server_ms.text@);
    assert(f[24] == row.server_avg_ms@);
    assert(f[25] == decimal(row.server.accepted_requests as nat));
    law_prints_read(row.server.accepted_requests as nat, 0);
    assert(f[26] == decimal(row.server.successful_requests as nat));
    law_prints_read(row.server.successful_requests as nat, 0);
    assert(f[27] == decimal(row.server.app_rejections as nat));
    law_prints_read(row.server.app_rejections as nat, 0);
    assert(f[28] == decimal(row.server.reset_rejections as nat));
    law_prints_read(row.server.reset_rejections as nat, 0);
    assert(f[29] == decimal(row.server.peak_inflight as nat));
    law_prints_read(row.server.peak_inflight as nat, 0);
    assert(f[30] == row.cpu_user_ms@);
    assert(f[31] == row.cpu_system_ms@);
    assert(f[32] == row.cpu_total_ms@);
    assert(f[33] == row.cpu_percent@);
    assert(f[34] == signed_decimal(row.rss_bytes_delta as int));
    law_prints_read(0, row.rss_bytes_delta as int);
    assert(f[35] == signed_decimal(row.maxrss_kb_after as int));
    law_prints_read(0, row.maxrss_kb_after as int);
}

/// What a chart is made from, of each row: the rows of the one mode come first, then those of
/// the other, in their order, and of each its mode, size, concurrency, load, repetition, 95th
/// percentile and the bytes that the server read.
pub proof fn law_chart(m: ResultsModel, i: int, row: OverloadResultRow)
    ensures
        chart_lines(m).len() == m.app503.len() + m.reset.len(),
        0 <= i < m.app503.len() ==> chart_lines(m)[i] == comma_joined(chart_fields(m.app503[i])),
        0 <= i < m.reset.len() ==> chart_lines(m)[m.app503.len() + i] == comma_joined(
            chart_fields(m.reset[i]),
        ),
        ({
            let f = chart_fields(row);
            let all = usize::MAX as nat;
            &&& f.len() == 7
            &&& f[0] == row.scenario.mode.name()
            &&& unsigned_number(f[1], all) == Some(row.scenario.payload_size as nat)
            &&& unsigned_number(f[2], all) == Some(row.scenario.concurrency as nat)
            &&& f[3] == chart_label(row)
            &&& unsigned_number(f[4], all) == Some(row.repeat_index as nat)
            &&& f[5] == row.latency_p95_exact@
            &&& unsigned_number(f[6], all) == Some(row.server.bytes_read as nat)
        }),
{
    let all = usize::MAX as nat;
    law_read_undoes_print(row.scenario.payload_size as nat, all);
    law_read_undoes_print(row.scenario.concurrency as nat, all);
    law_read_undoes_print(row.repeat_index as nat, all);
    law_read_undoes_print(row.server.bytes_read as nat, all);
}

/// A comparison sets the bytes, the server's time, the processor's share and the time until a
/// client knew of the one mode beside those of the other, behind what the two runs share.
pub proof fn law_comparison(app: OverloadResultRow, reset: OverloadResultRow)
    ensures
        ({
            let c = comparison_cells(app, reset);
            let all = usize::MAX as nat;
            &&& c.len() == 11
            &&& unsigned_number(c[0], all) == Some(app.scenario.payload_size as nat)
            &&& unsigned_number(c[1], all) == Some(app.scenario.concurrency as nat)
            &&& unsigned_number(c[2], all) == Some(app.scenario.threshold as nat)
            &&& unsigned_number(c[3], all) == Some(app.server.bytes_read as nat)
            &&& unsigned_number(c[4], all) == Some(reset.server.bytes_read as nat)
            &&& c[5] == app.server_ms.text@ && c[6] == reset.server_ms.text@
            &&& c[7] == app.cpu_percent@ && c[8] == reset.cpu_percent@
            &&& c[9] == app.rejection_mean_ms.text@ && c[10] == reset.rejection_mean_ms.text@
        }),
{
    let all = usize::MAX as nat;
    law_read_undoes_print(app.scenario.payload_size as nat, all);
    law_read_undoes_print(app.scenario.concurrency as nat, all);
    law_read_undoes_print(app.scenario.threshold as nat, all);
    law_read_undoes_print(app.server.bytes_read as nat, all);
    law_read_undoes_print(reset.server.bytes_read as nat, all);
}

/// The cells of a row of a table are read back from between its bars, each with a space on
/// both sides, where none of them holds a bar.
pub proof fn law_table_row(cells: Seq<Seq<char>>)
    requires
        forall|i: int| 0 <= i < cells.len() ==> !(#[trigger] cells[i]).contains('|'),
    ensures
        split(table_row(cells), '|') == seq![Seq::<char>::empty()] + cells.map_values(
            |cell: Seq<char>| seq![' '] + cell + seq![' '],
        ) + seq![Seq::<char>::empty()],
    decreases cells.len(),
{
    let none = Seq::<char>::empty();
    let f = |cell: Seq<char>| seq![' '] + cell + seq![' '];
    law_split_plain(none, '|');
    if cells.len() == 0 {
        law_split_concat(none, none, '|');
        assert(none.push('|') + none =~= seq!['|']);
        assert(split(table_row(cells), '|') =~= seq![none] + cells.map_values(f) + seq![none]);
    } else {
        let rest = cells.drop_last();
        let last = cells[cells.len() - 1];
        assert forall|i: int| 0 <= i < rest.len() implies !(#[trigger] rest[i]).contains('|') by {
            assert(rest[i] == cells[i]);
        }
        law_table_row(rest);
        let head = table_row(rest);
        lemma_table_row_ends(rest);
        let x = head.drop_last();
        assert(x.push('|') =~= head);
        law_split_concat(x, none, '|');
        assert(x.push('|') + none =~= head);
        let before = split(x, '|');
        assert(before + seq![none] =~= seq![none] + rest.map_values(f) + seq![none]);
        assert(before =~= seq![none] + rest.map_values(f)) by {
            let all = seq![none] + rest.map_values(f) + seq![none];
            assert((before + seq![none]).drop_last() =~= before);
            assert(all.drop_last() =~= seq![none] + rest.map_values(f));
        }
        let cell = f(last);
        assert(!cell.contains('|')) by {
            assert forall|i: int| 0 <= i < cell.len() implies cell[i] != '|' by {
                if 0 < i <= last.len() {
                    assert(cell[i] == last[i - 1]);
                }
            }
        }
        law_split_plain(cell, '|');
        law_split_concat(cell, none, '|');
        law_split_concat(x, cell.push('|') + none, '|');
        assert(x.push('|') + (cell.push('|') + none) =~= table_row(cells));
        assert(cells.map_values(f) =~= rest.map_values(f).push(cell));
        assert(split(table_row(cells), '|') =~= seq![none] + cells.map_values(f) + seq![none]);
    }
}

proof fn lemma_table_row_ends(cells: Seq<Seq<char>>)
    ensures
        table_row(cells).len() > 0,
        table_row(cells).last() == '|',
{
    if cells.len() > 0 {
        let row = table_row(cells);
        assert(row[row.len() - 1] == '|');
    }
}

} // verus!
