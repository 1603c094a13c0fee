//! Reports as comma-separated values. Numbers with a fraction come as text, printed
//! with the number of places that their column has.
use crate::number::{
    count_text, decimal, law_prints_read, law_read_undoes_print, reads_as, reads_as_signed,
    signed_decimal, signed_text, unsigned_number,
};
use crate::plan::Scenario;
use crate::protocol::{h2load_protocol_name, Protocol};
use crate::text::{
    comma_joined, join_commas, law_commas_read_back, law_lines_concat, law_single_line, lines,
    split,
};
use vstd::prelude::*;
use vstd::string::*;

verus! {

// ---------------------------------------------------------------------------
// Lines
// ---------------------------------------------------------------------------

/// Lines, each with a line feed behind it.
pub open spec fn all_lines(lines: Seq<Seq<char>>) -> Seq<char>
    decreases lines.len(),
{
    if lines.len() == 0 {
        seq![]
    } else {
        all_lines(lines.drop_last()) + lines.last().push('\n')
    }
}

/// Adds a line.
pub fn add_line(out: &mut String, line: &str)
    ensures
        final(out)@ == old(out)@ + line@.push('\n'),
{
    out.append(line);
    out.push('\n');
    assert(out@ =~= old(out)@ + line@.push('\n'));
}

pub proof fn lemma_first_line(lines: Seq<Seq<char>>)
    requires
        lines.len() > 0,
    ensures
        all_lines(lines.take(1)) == lines[0].push('\n'),
{
    let one = lines.take(1);
    assert(one.drop_last() =~= Seq::<Seq<char>>::empty());
    assert(all_lines(Seq::<Seq<char>>::empty()) =~= Seq::<char>::empty());
    assert(all_lines(one) =~= lines[0].push('\n'));
}

pub proof fn lemma_next_line(lines: Seq<Seq<char>>, i: int)
    requires
        0 <= i < lines.len(),
    ensures
        all_lines(lines.take(i + 1)) == all_lines(lines.take(i)) + lines[i].push('\n'),
{
    assert(lines.take(i + 1).drop_last() =~= lines.take(i));
}

/// The names of columns, with a comma between them.
pub fn header_line(names: &Vec<&str>) -> (r: String)
    ensures
        r@ == comma_joined(names@.map_values(|name: &str| name@)),
{
    let ghost all = names@.map_values(|name: &str| name@);
    let mut texts: Vec<String> = Vec::new();
    let mut i: usize = 0;
    while i < names.len()
        invariant
            i <= names@.len(),
            all == names@.map_values(|name: &str| name@),
            texts.deep_view() == all.take(i as int),
        decreases names@.len() - i,
    {
        let ghost before = texts.deep_view();
        let name: &str = names[i];
        let text = name.to_owned();
        assert(text@ == all[i as int]);
        texts.push(text);
        assert(texts.deep_view() =~= before.push(text@));
        i = i + 1;
        assert(texts.deep_view() =~= all.take(i as int));
    }
    assert(all.take(i as int) =~= all);
    join_commas(&texts)
}

/// A size in bytes, or in kilobytes where it is a whole number of them.
pub open spec fn payload_label_of(bytes: nat) -> Seq<char> {
    if bytes >= 1024 && bytes % 1024 == 0 {
        decimal(bytes / 1024).push('k')
    } else {
        decimal(bytes).push('b')
    }
}

/// A size in bytes, or in kilobytes where it is a whole number of them.
pub fn payload_label(bytes: usize) -> (r: String)
    ensures
        r@ == payload_label_of(bytes as nat),
{
    if bytes >= 1024 && bytes % 1024 == 0 {
        let mut r = count_text(bytes / 1024);
        r.push('k');
        r
    } else {
        let mut r = count_text(bytes);
        r.push('b');
        r
    }
}

/// The figures of latencies, in milliseconds.
#[derive(Debug, Clone)]
pub struct LatencyTexts {
    pub mean: String,
    pub p50: String,
    pub p95: String,
    pub p99: String,
    pub min: String,
    pub max: String,
}

// ---------------------------------------------------------------------------
// The scenario matrix
// ---------------------------------------------------------------------------

/// How many worker threads the runtime has.
pub const TOKIO_WORKER_THREADS: usize = 2;

/// What a scenario of the matrix came to.
#[derive(Debug, Clone)]
pub struct ResultRow {
    pub scenario: Scenario,
    pub repeat_index: usize,
    pub payload_count: usize,
    pub payload_bytes_avg: usize,
    pub duration_ms: String,
    pub throughput: String,
    pub errors: usize,
    pub latency: LatencyTexts,
    pub cpu_user_ms: String,
    pub cpu_system_ms: String,
    pub rss_bytes_delta: i64,
    pub maxrss_kb_after: i64,
}

/// How many messages a scenario has.
pub open spec fn row_messages(row: ResultRow) -> nat {
    row.scenario.users as nat * row.scenario.messages_per_user as nat
}

/// The fields of a row of the scenario matrix.
pub open spec fn result_fields_of(row: ResultRow) -> Seq<Seq<char>> {
    seq![
        row.scenario.protocol.report_name(),
        decimal(row.scenario.users as nat),
        decimal(row.scenario.messages_per_user as nat),
        decimal(row_messages(row)),
        decimal(row.repeat_index as nat),
        decimal(TOKIO_WORKER_THREADS as nat),
        "serial_per_user"@,
        row.scenario.protocol.client_scheduler_name(),
        row.scenario.protocol.server_scheduler_name(),
        "interleaved_by_repeat"@,
        decimal(row.payload_count as nat),
        decimal(row.payload_bytes_avg as nat),
        row.scenario.failure.name@,
        row.duration_ms@,
        row.throughput@,
        decimal(row.errors as nat),
        row.latency.mean@,
        row.latency.p50@,
        row.latency.p95@,
        row.latency.p99@,
        row.latency.min@,
        row.latency.max@,
        row.cpu_user_ms@,
        row.cpu_system_ms@,
        signed_decimal(row.rss_bytes_delta as int),
        signed_decimal(row.maxrss_kb_after as int),
    ]
}

fn result_fields(row: &ResultRow) -> (r: Vec<String>)
    requires
        row_messages(*row) <= usize::MAX,
    ensures
        r.deep_view() == result_fields_of(*row),
{
    let r: Vec<String> = vec![
        row.scenario.protocol.as_str().to_owned(),
        count_text(row.scenario.users),
        count_text(row.scenario.messages_per_user),
        count_text(row.scenario.users * row.scenario.messages_per_user),
        count_text(row.repeat_index),
        count_text(TOKIO_WORKER_THREADS),
        "serial_per_user".to_owned(),
        row.scenario.protocol.client_scheduler().to_owned(),
        row.scenario.protocol.server_scheduler().to_owned(),
        "interleaved_by_repeat".to_owned(),
        count_text(row.payload_count),
        count_text(row.payload_bytes_avg),
        row.scenario.failure.name.clone(),
        row.duration_ms.clone(),
        row.throughput.clone(),
        count_text(row.errors),
        row.latency.mean.clone(),
        row.latency.p50.clone(),
        row.latency.p95.clone(),
        row.latency.p99.clone(),
        row.latency.min.clone(),
        row.latency.max.clone(),
        row.cpu_user_ms.clone(),
        row.cpu_system_ms.clone(),
        signed_text(row.rss_bytes_delta),
        signed_text(row.maxrss_kb_after),
    ];
    assert(r.deep_view() =~= result_fields_of(*row));
    r
}

/// The names of the columns of the report of the scenario matrix.
pub open spec fn matrix_columns() -> Seq<Seq<char>> {
    seq![
        "protocol"@,
        "users"@,
        "messages_per_user"@,
        "total_messages"@,
        "repeat_index"@,
        "runtime_worker_threads"@,
        "workload_model"@,
        "client_scheduler"@,
        "server_scheduler"@,
        "run_order"@,
        "payload_count"@,
        "payload_bytes_avg"@,
        "failure_profile"@,
        "duration_ms"@,
        "throughput_msg_s"@,
        "errors"@,
        "latency_mean_ms"@,
        "latency_p50_ms"@,
        "latency_p95_ms"@,
        "latency_p99_ms"@,
        "latency_min_ms"@,
        "latency_max_ms"@,
        "cpu_user_ms"@,
        "cpu_system_ms"@,
        "rss_bytes_delta"@,
        "maxrss_kb_after"@,
    ]
}

/// The lines of the report of the scenario matrix.
pub open spec fn matrix_lines(rows: Seq<ResultRow>) -> Seq<Seq<char>> {
    seq![comma_joined(matrix_columns())] + rows.map_values(
        |row: ResultRow| comma_joined(result_fields_of(row)),
    )
}

/// Every row of the report of the scenario matrix has a field for each column.
pub proof fn law_matrix_lines(row: ResultRow)
    ensures
        result_fields_of(row).len() == matrix_columns().len(),
{
}

/// Writes the report of the scenario matrix.
pub fn write_csv(rows: &Vec<ResultRow>) -> (r: String)
    requires
        forall|i: int| 0 <= i < rows@.len() ==> row_messages(#[trigger] rows@[i]) <= usize::MAX,
    ensures
        r@ == all_lines(matrix_lines(rows@)),
{
    let columns: Vec<&str> = vec![
        "protocol",
        "users",
        "messages_per_user",
        "total_messages",
        "repeat_index",
        "runtime_worker_threads",
        "workload_model",
        "client_scheduler",
        "server_scheduler",
        "run_order",
        "payload_count",
        "payload_bytes_avg",
        "failure_profile",
        "duration_ms",
        "throughput_msg_s",
        "errors",
        "latency_mean_ms",
        "latency_p50_ms",
        "latency_p95_ms",
        "latency_p99_ms",
        "latency_min_ms",
        "latency_max_ms",
        "cpu_user_ms",
        "cpu_system_ms",
        "rss_bytes_delta",
        "maxrss_kb_after",
    ];
    assert(columns@.map_values(|name: &str| name@) =~= matrix_columns());
    let mut out = String::new();
    let header = header_line(&columns);
    add_line(&mut out, header.as_str());
    let mut i: usize = 0;
    let ghost wanted = matrix_lines(rows@);
    proof {
        lemma_first_line(wanted);
    }
    while i < rows.len()
        invariant
            i <= rows@.len(),
            wanted == matrix_lines(rows@),
            out@ == all_lines(wanted.take(i + 1)),
            forall|k: int| 0 <= k < rows@.len() ==> row_messages(#[trigger] rows@[k]) <= usize::MAX,
        decreases rows@.len() - i,
    {
        let fields = result_fields(&rows[i]);
        let line = join_commas(&fields);
        proof {
            lemma_next_line(wanted, i + 1);
        }
        assert(wanted[i + 1] == line@);
        add_line(&mut out, line.as_str());
        i = i + 1;
    }
    assert(wanted.take(i + 1) =~= wanted);
    out
}

// ---------------------------------------------------------------------------
// Fixed rates
// ---------------------------------------------------------------------------

/// What a trial in one process came to.
#[derive(Debug, Clone)]
pub struct RustPpsRow {
    pub protocol: Protocol,
    pub payload_size: usize,
    pub target_pps: usize,
    pub repeat_index: usize,
    pub duration_ms: String,
    pub actual_req_s: String,
    pub scheduled_requests: usize,
    pub sent_requests: usize,
    pub completed_requests: usize,
    pub successes: usize,
    pub errors: usize,
    pub mean_ms: String,
    pub p95_ms: String,
    pub p99_ms: String,
    pub process_cpu_percent: String,
    pub process_mib: String,
    pub maxrss_mib: String,
}

/// The fields of a row of the report on trials in one process.
pub open spec fn rust_pps_fields_of(row: RustPpsRow) -> Seq<Seq<char>> {
    seq![
        row.protocol.short_name(),
        "clean"@,
        payload_label_of(row.payload_size as nat),
        decimal(row.target_pps as nat),
        decimal(row.repeat_index as nat),
        row.duration_ms@,
        row.actual_req_s@,
        decimal(row.scheduled_requests as nat),
        decimal(row.sent_requests as nat),
        decimal(row.completed_requests as nat),
        decimal(row.successes as nat),
        decimal(row.errors as nat),
        row.mean_ms@,
        row.p95_ms@,
        row.p99_ms@,
        row.process_cpu_percent@,
        row.process_mib@,
        row.maxrss_mib@,
    ]
}

fn rust_pps_fields(row: &RustPpsRow) -> (r: Vec<String>)
    ensures
        r.deep_view() == rust_pps_fields_of(*row),
{
    let r: Vec<String> = vec![
        h2load_protocol_name(row.protocol).to_owned(),
        "clean".to_owned(),
        payload_label(row.payload_size),
        count_text(row.target_pps),
        count_text(row.repeat_index),
        row.duration_ms.clone(),
        row.actual_req_s.clone(),
        count_text(row.scheduled_requests),
        count_text(row.sent_requests),
        count_text(row.completed_requests),
        count_text(row.successes),
        count_text(row.errors),
        row.mean_ms.clone(),
        row.p95_ms.clone(),
        row.p99_ms.clone(),
        row.process_cpu_percent.clone(),
        row.process_mib.clone(),
        row.maxrss_mib.clone(),
    ];
    assert(r.deep_view() =~= rust_pps_fields_of(*row));
    r
}

/// The names of the columns of the report on trials in one process.
pub open spec fn rust_pps_columns() -> Seq<Seq<char>> {
    seq![
        "protocol"@,
        "profile"@,
        "payload"@,
        "target_pps"@,
        "repeat_index"@,
        "duration_ms"@,
        "actual_req_s"@,
        "scheduled_requests"@,
        "sent_requests"@,
        "completed_requests"@,
        "successes"@,
        "errors"@,
        "mean_ms"@,
        "p95_ms"@,
        "p99_ms"@,
        "process_cpu_percent"@,
        "process_mib"@,
        "maxrss_mib"@,
    ]
}

/// The lines of the report on trials in one process.
pub open spec fn rust_pps_lines(rows: Seq<RustPpsRow>) -> Seq<Seq<char>> {
    seq![comma_joined(rust_pps_columns())] + rows.map_values(
        |row: RustPpsRow| comma_joined(rust_pps_fields_of(row)),
    )
}

/// Every row of the report on trials in one process has a field for each column.
pub proof fn law_rust_pps_lines(row: RustPpsRow)
    ensures
        rust_pps_fields_of(row).len() == rust_pps_columns().len(),
{
}

/// Writes the report on trials in one process.
pub fn write_rust_pps_csv(rows: &Vec<RustPpsRow>) -> (r: String)
    ensures
        r@ == all_lines(rust_pps_lines(rows@)),
{
    let columns: Vec<&str> = vec![
        "protocol",
        "profile",
        "payload",
        "target_pps",
        "repeat_index",
        "duration_ms",
        "actual_req_s",
        "scheduled_requests",
        "sent_requests",
        "completed_requests",
        "successes",
        "errors",
        "mean_ms",
        "p95_ms",
        "p99_ms",
        "process_cpu_percent",
        "process_mib",
        "maxrss_mib",
    ];
    assert(columns@.map_values(|name: &str| name@) =~= rust_pps_columns());
    let mut out = String::new();
    let header = header_line(&columns);
    add_line(&mut out, header.as_str());
    let mut i: usize = 0;
    let ghost wanted = rust_pps_lines(rows@);
    proof {
        lemma_first_line(wanted);
    }
    while i < rows.len()
        invariant
            i <= rows@.len(),
            wanted == rust_pps_lines(rows@),
            out@ == all_lines(wanted.take(i + 1)),
        decreases rows@.len() - i,
    {
        let fields = rust_pps_fields(&rows[i]);
        let line = join_commas(&fields);
        proof {
            lemma_next_line(wanted, i + 1);
        }
        assert(wanted[i + 1] == line@);
        add_line(&mut out, line.as_str());
        i = i + 1;
    }
    assert(wanted.take(i + 1) =~= wanted);
    out
}

/// What a trial against a server outside of this process came to.
#[derive(Debug, Clone)]
pub struct NginxPpsRow {
    pub protocol: Protocol,
    pub payload_size: usize,
    pub target_pps: usize,
    pub repeat_index: usize,
    pub duration_ms: String,
    pub actual_req_s: String,
    pub scheduled_requests: usize,
    pub sent_requests: usize,
    pub completed_requests: usize,
    pub successes: usize,
    pub errors: usize,
    pub mean_ms: String,
    pub p95_ms: String,
    pub p99_ms: String,
    pub nginx_cpu_percent: String,
    pub nginx_mib: String,
    pub client_cpu_percent: String,
    pub client_mib: String,
}

/// The fields of a row of the report on trials against a server outside.
pub open spec fn nginx_fields_of(row: NginxPpsRow) -> Seq<Seq<char>> {
    seq![
        row.protocol.short_name(),
        "clean"@,
        payload_label_of(row.payload_size as nat),
        decimal(row.target_pps as nat),
        decimal(row.repeat_index as nat),
        row.duration_ms@,
        row.actual_req_s@,
        decimal(row.scheduled_requests as nat),
        decimal(row.sent_requests as nat),
        decimal(row.completed_requests as nat),
        decimal(row.successes as nat),
        decimal(row.errors as nat),
        row.mean_ms@,
        row.p95_ms@,
        row.p99_ms@,
        row.nginx_cpu_percent@,
        row.nginx_mib@,
        row.client_cpu_percent@,
        row.client_mib@,
    ]
}

fn nginx_fields(row: &NginxPpsRow) -> (r: Vec<String>)
    ensures
        r.deep_view() == nginx_fields_of(*row),
{
    let r: Vec<String> = vec![
        h2load_protocol_name(row.protocol).to_owned(),
        "clean".to_owned(),
        payload_label(row.payload_size),
        count_text(row.target_pps),
        count_text(row.repeat_index),
        row.duration_ms.clone(),
        row.actual_req_s.clone(),
        count_text(row.scheduled_requests),
        count_text(row.sent_requests),
        count_text(row.completed_requests),
        count_text(row.successes),
        count_text(row.errors),
        row.mean_ms.clone(),
        row.p95_ms.clone(),
        row.p99_ms.clone(),
        row.nginx_cpu_percent.clone(),
        row.nginx_mib.clone(),
        row.client_cpu_percent.clone(),
        row.client_mib.clone(),
    ];
    assert(r.deep_view() =~= nginx_fields_of(*row));
    r
}

/// The names of the columns of the report on trials against a server outside.
pub open spec fn nginx_columns() -> Seq<Seq<char>> {
    seq![
        "protocol"@,
        "profile"@,
        "payload"@,
        "target_pps"@,
        "repeat_index"@,
        "duration_ms"@,
        "actual_req_s"@,
        "scheduled_requests"@,
        "sent_requests"@,
        "completed_requests"@,
        "successes"@,
        "errors"@,
        "mean_ms"@,
        "p95_ms"@,
        "p99_ms"@,
        "nginx_cpu_percent"@,
        "nginx_mib"@,
        "client_cpu_percent"@,
        "client_mib"@,
    ]
}

/// The lines of the report on trials against a server outside.
pub open spec fn nginx_lines(rows: Seq<NginxPpsRow>) -> Seq<Seq<char>> {
    seq![comma_joined(nginx_columns())] + rows.map_values(
        |row: NginxPpsRow| comma_joined(nginx_fields_of(row)),
    )
}

/// Every row of the report on trials against a server outside has a field for each column.
pub proof fn law_nginx_lines(row: NginxPpsRow)
    ensures
        nginx_fields_of(row).len() == nginx_columns().len(),
{
}

/// Writes the report on trials against a server outside.
pub fn write_nginx_pps_csv(rows: &Vec<NginxPpsRow>) -> (r: String)
    ensures
        r@ == all_lines(nginx_lines(rows@)),
{
    let columns: Vec<&str> = vec![
        "protocol",
        "profile",
        "payload",
        "target_pps",
        "repeat_index",
        "duration_ms",
        "actual_req_s",
        "scheduled_requests",
        "sent_requests",
        "completed_requests",
        "successes",
        "errors",
        "mean_ms",
        "p95_ms",
        "p99_ms",
        "nginx_cpu_percent",
        "nginx_mib",
        "client_cpu_percent",
        "client_mib",
    ];
    assert(columns@.map_values(|name: &str| name@) =~= nginx_columns());
    let mut out = String::new();
    let header = header_line(&columns);
    add_line(&mut out, header.as_str());
    let mut i: usize = 0;
    let ghost wanted = nginx_lines(rows@);
    proof {
        lemma_first_line(wanted);
    }
    while i < rows.len()
        invariant
            i <= rows@.len(),
            wanted == nginx_lines(rows@),
            out@ == all_lines(wanted.take(i + 1)),
        decreases rows@.len() - i,
    {
        let fields = nginx_fields(&rows[i]);
        let line = join_commas(&fields);
        proof {
            lemma_next_line(wanted, i + 1);
        }
        assert(wanted[i + 1] == line@);
        add_line(&mut out, line.as_str());
        i = i + 1;
    }
    assert(wanted.take(i + 1) =~= wanted);
    out
}

/// What a trial that `h2load` drove came to.
#[derive(Debug, Clone)]
pub struct H2LoadRateRow {
    pub protocol: Protocol,
    pub payload_size: usize,
    pub target_pps: usize,
    pub effective_target_pps: usize,
    pub repeat_index: usize,
    pub duration_ms: String,
    pub actual_req_s: String,
    pub requests_total: usize,
    pub requests_success: usize,
    pub requests_failed: usize,
    pub mean_ms: String,
    pub p95_ms: String,
    pub p99_ms: String,
    pub server_cpu_percent: String,
    pub server_mib: String,
    pub client_cpu_percent: String,
    pub client_mib: String,
    pub h2load_status: i32,
}

/// The fields of a row of the report on trials that `h2load` drove.
pub open spec fn h2load_fields_of(row: H2LoadRateRow) -> Seq<Seq<char>> {
    seq![
        row.protocol.short_name(),
        "clean"@,
        payload_label_of(row.payload_size as nat),
        decimal(row.target_pps as nat),
        decimal(row.effective_target_pps as nat),
        decimal(row.repeat_index as nat),
        row.duration_ms@,
        row.actual_req_s@,
        decimal(row.requests_total as nat),
        decimal(row.requests_success as nat),
        decimal(row.requests_failed as nat),
        row.mean_ms@,
        row.p95_ms@,
        row.p99_ms@,
        row.server_cpu_percent@,
        row.server_mib@,
        row.client_cpu_percent@,
        row.client_mib@,
        signed_decimal(row.h2load_status as int),
    ]
}

fn h2load_fields(row: &H2LoadRateRow) -> (r: Vec<String>)
    ensures
        r.deep_view() == h2load_fields_of(*row),
{
    let r: Vec<String> = vec![
        h2load_protocol_name(row.protocol).to_owned(),
        "clean".to_owned(),
        payload_label(row.payload_size),
        count_text(row.target_pps),
        count_text(row.effective_target_pps),
        count_text(row.repeat_index),
        row.duration_ms.clone(),
        row.actual_req_s.clone(),
        count_text(row.requests_total),
        count_text(row.requests_success),
        count_text(row.requests_failed),
        row.mean_ms.clone(),
        row.p95_ms.clone(),
        row.p99_ms.clone(),
        row.server_cpu_percent.clone(),
        row.server_mib.clone(),
        row.client_cpu_percent.clone(),
        row.client_mib.clone(),
        signed_text(row.h2load_status as i64),
    ];
    assert(r.deep_view() =~= h2load_fields_of(*row));
    r
}

/// The names of the columns of the report on trials that `h2load` drove.
pub open spec fn h2load_columns() -> Seq<Seq<char>> {
    seq![
        "protocol"@,
        "profile"@,
        "payload"@,
        "target_pps"@,
        "effective_target_pps"@,
        "repeat_index"@,
        "duration_ms"@,
        "actual_req_s"@,
        "requests_total"@,
        "requests_success"@,
        "requests_failed"@,
        "mean_ms"@,
        "p95_ms"@,
        "p99_ms"@,
        "server_cpu_percent"@,
        "server_mib"@,
        "client_cpu_percent"@,
        "client_mib"@,
        "h2load_status"@,
    ]
}

/// The lines of the report on trials that `h2load` drove.
pub open spec fn h2load_lines(rows: Seq<H2LoadRateRow>) -> Seq<Seq<char>> {
    seq![comma_joined(h2load_columns())] + rows.map_values(
        |row: H2LoadRateRow| comma_joined(h2load_fields_of(row)),
    )
}

/// Every row of the report on trials that `h2load` drove has a field for each column.
pub proof fn law_h2load_lines(row: H2LoadRateRow)
    ensures
        h2load_fields_of(row).len() == h2load_columns().len(),
{
}

/// Writes the report on trials that `h2load` drove.
pub fn write_h2load_rate_csv(rows: &Vec<H2LoadRateRow>) -> (r: String)
    ensures
        r@ == all_lines(h2load_lines(rows@)),
{
    let columns: Vec<&str> = vec![
        "protocol",
        "profile",
        "payload",
        "target_pps",
        "effective_target_pps",
        "repeat_index",
        "duration_ms",
        "actual_req_s",
        "requests_total",
        "requests_success",
        "requests_failed",
        "mean_ms",
        "p95_ms",
        "p99_ms",
        "server_cpu_percent",
        "server_mib",
        "client_cpu_percent",
        "client_mib",
        "h2load_status",
    ];
    assert(columns@.map_values(|name: &str| name@) =~= h2load_columns());
    let mut out = String::new();
    let header = header_line(&columns);
    add_line(&mut out, header.as_str());
    let mut i: usize = 0;
    let ghost wanted = h2load_lines(rows@);
    proof {
        lemma_first_line(wanted);
    }
    while i < rows.len()
        invariant
            i <= rows@.len(),
            wanted == h2load_lines(rows@),
            out@ == all_lines(wanted.take(i + 1)),
        decreases rows@.len() - i,
    {
        let fields = h2load_fields(&rows[i]);
        let line = join_commas(&fields);
        proof {
            lemma_next_line(wanted, i + 1);
        }
        assert(wanted[i + 1] == line@);
        add_line(&mut out, line.as_str());
        i = i + 1;
    }
    assert(wanted.take(i + 1) =~= wanted);
    out
}

/// Lines that hold no line feed, and end with no carriage return, are read back from the
/// text that they are written to.
pub proof fn law_lines_read_back(all: Seq<Seq<char>>)
    requires
        forall|i: int| 0 <= i < all.len() ==> !(#[trigger] all[i]).contains('\n'),
        forall|i: int|
            0 <= i < all.len() ==> !((#[trigger] all[i]).len() > 0 && all[i].last() == '\r'),
    ensures
        lines(all_lines(all)) == all,
    decreases all.len(),
{
    if all.len() == 0 {
        law_single_line(Seq::empty());
        assert(all_lines(all) =~= Seq::<char>::empty());
        assert(lines(Seq::<char>::empty()) =~= all);
    } else {
        let rest = all.drop_last();
        assert forall|i: int| 0 <= i < rest.len() implies !(#[trigger] rest[i]).contains('\n')
            && !(rest[i].len() > 0 && rest[i].last() == '\r') by {
            assert(rest[i] == all[i]);
        }
        law_lines_read_back(rest);
        let last = all.last();
        assert(last == all[all.len() - 1]);
        law_single_line(last);
        let text = all_lines(rest);
        if rest.len() == 0 {
            assert(all_lines(all) =~= last.push('\n'));
            assert(all =~= seq![last]);
        } else {
            assert(text.last() == '\n');
            let x = text.drop_last();
            assert(x.push('\n') =~= text);
            law_lines_concat(x, last.push('\n'));
            assert(all =~= rest + seq![last]);
        }
    }
}

/// Lines that are written one after the other are the two texts one after the other.
pub proof fn law_lines_follow(a: Seq<Seq<char>>, b: Seq<Seq<char>>)
    ensures
        all_lines(a + b) == all_lines(a) + all_lines(b),
    decreases b.len(),
{
    if b.len() == 0 {
        assert(a + b =~= a);
        assert(all_lines(a + b) =~= all_lines(a) + all_lines(b));
    } else {
        assert((a + b).drop_last() =~= a + b.drop_last());
        law_lines_follow(a, b.drop_last());
        assert(all_lines(a + b) =~= all_lines(a) + all_lines(b));
    }
}

/// The size can be told from its label: the number before the last character, in units of
/// which that character names one.
pub proof fn law_payload_label(bytes: nat, limit: nat)
    requires
        bytes <= limit,
    ensures
        ({
            let label = payload_label_of(bytes);
            let n = unsigned_number(label.drop_last(), limit);
            &&& label.last() == 'b' || label.last() == 'k'
            &&& label.last() == 'k' <==> bytes > 0 && bytes % 1024 == 0
            &&& n is Some
            &&& bytes == n->0 * if label.last() == 'k' {
                1024nat
            } else {
                1
            }
        }),
{
    if bytes >= 1024 && bytes % 1024 == 0 {
        law_read_undoes_print(bytes / 1024, limit);
        assert(payload_label_of(bytes).drop_last() =~= decimal(bytes / 1024));
    } else {
        law_read_undoes_print(bytes, limit);
        assert(payload_label_of(bytes).drop_last() =~= decimal(bytes));
    }
}

/// A table is read back: cut into lines, and those at their commas, it is the fields that were
/// written, as long as none of them holds a comma or a line feed, or ends with a carriage
/// return.
pub proof fn law_table_reads_back(table: Seq<Seq<Seq<char>>>, i: int)
    requires
        0 <= i < table.len(),
        forall|r: int| 0 <= r < table.len() ==> (#[trigger] table[r]).len() > 0,
        forall|r: int, k: int|
            0 <= r < table.len() && 0 <= k < table[r].len() ==> plain_field(
                #[trigger] table[r][k],
            ),
    ensures
        ({
            let all = lines(all_lines(table.map_values(|f: Seq<Seq<char>>| comma_joined(f))));
            all.len() == table.len() && split(all[i], ',') == table[i]
        }),
{
    let all = table.map_values(|f: Seq<Seq<char>>| comma_joined(f));
    assert forall|r: int| 0 <= r < all.len() implies !(#[trigger] all[r]).contains('\n') && !(
    all[r].len() > 0 && all[r].last() == '\r') by {
        assert(table[r].len() > 0);
        assert forall|k: int| 0 <= k < table[r].len() implies plain_field(
            #[trigger] table[r][k],
        ) by {}
        lemma_plain_line(table[r]);
    }
    law_lines_read_back(all);
    assert(table[i].len() > 0);
    assert forall|k: int| 0 <= k < table[i].len() implies !(#[trigger] table[i][k]).contains(
        ',',
    ) by {
        assert(plain_field(table[i][k]));
    }
    law_commas_read_back(table[i]);
}

/// Whether a field holds no comma and no line feed, and does not end with a carriage return.
pub open spec fn plain_field(field: Seq<char>) -> bool {
    !field.contains(',') && !field.contains('\n') && !(field.len() > 0 && field.last() == '\r')
}

proof fn lemma_plain_line(fields: Seq<Seq<char>>)
    requires
        fields.len() > 0,
        forall|k: int| 0 <= k < fields.len() ==> plain_field(#[trigger] fields[k]),
    ensures
        !comma_joined(fields).contains('\n'),
        !(comma_joined(fields).len() > 0 && comma_joined(fields).last() == '\r'),
    decreases fields.len(),
{
    let last = fields[fields.len() - 1];
    assert(plain_field(last));
    if fields.len() > 1 {
        let rest = fields.drop_last();
        assert forall|k: int| 0 <= k < rest.len() implies plain_field(#[trigger] rest[k]) by {
            assert(rest[k] == fields[k]);
        }
        lemma_plain_line(rest);
        let head = comma_joined(rest);
        let line = comma_joined(fields);
        assert(line =~= head.push(',') + last);
        assert forall|i: int| 0 <= i < line.len() implies line[i] != '\n' by {
            if i < head.len() {
                assert(line[i] == head[i]);
            } else if i > head.len() {
                assert(line[i] == last[i - head.len() - 1]);
            }
        }
        if last.len() > 0 {
            assert(line.last() == last.last());
        }
    }
}

/// The columns of the report of the scenario matrix. There is a line for them, and then one
/// for each row, with its fields.
pub proof fn law_matrix_columns(rows: Seq<ResultRow>, i: int)
    ensures
        matrix_columns() == seq![
            "protocol"@,
            "users"@,
            "messages_per_user"@,
            "total_messages"@,
            "repeat_index"@,
            "runtime_worker_threads"@,
            "workload_model"@,
            "client_scheduler"@,
            "server_scheduler"@,
            "run_order"@,
            "payload_count"@,
            "payload_bytes_avg"@,
            "failure_profile"@,
            "duration_ms"@,
            "throughput_msg_s"@,
            "errors"@,
            "latency_mean_ms"@,
            "latency_p50_ms"@,
            "latency_p95_ms"@,
            "latency_p99_ms"@,
            "latency_min_ms"@,
            "latency_max_ms"@,
            "cpu_user_ms"@,
            "cpu_system_ms"@,
            "rss_bytes_delta"@,
            "maxrss_kb_after"@,
        ],
        matrix_lines(rows).len() == rows.len() + 1,
        matrix_lines(rows)[0] == comma_joined(matrix_columns()),
        0 <= i < rows.len() ==> matrix_lines(rows)[i + 1] == comma_joined(
            result_fields_of(rows[i]),
        ),
{
}

/// What stands under the columns of the report of the scenario matrix, in the first half of them:
/// numbers as they are read back, and texts as they are.
pub proof fn law_matrix_first_fields(row: ResultRow)
    requires
        row_messages(row) <= usize::MAX,
    ensures
        ({
            let f = result_fields_of(row);
            &&& f.len() == 26
            &&& f[0] == row.scenario.protocol.report_name()
            &&& reads_as(f[1], row.scenario.users as nat)
            &&& reads_as(f[2], row.scenario.messages_per_user as nat)
            &&& reads_as(f[3], row.scenario.users as nat * row.scenario.messages_per_user as nat)
            &&& reads_as(f[4], row.repeat_index as nat)
            &&& reads_as(f[5], 2)
            &&& f[6] == "serial_per_user"@
            &&& f[7] == row.scenario.protocol.client_scheduler_name()
            &&& f[8] == row.scenario.protocol.server_scheduler_name()
            &&& f[9] == "interleaved_by_repeat"@
            &&& reads_as(f[10], row.payload_count as nat)
            &&& reads_as(f[11], row.payload_bytes_avg as nat)
            &&& f[12] == row.scenario.failure.name@
        }),
{
    law_prints_read(row.scenario.users as nat, 0);
    law_prints_read(row.scenario.messages_per_user as nat, 0);
    law_prints_read(row.scenario.users as nat * row.scenario.messages_per_user as nat, 0);
    law_prints_read(row.repeat_index as nat, 0);
    law_prints_read(2, 0);
    law_prints_read(row.payload_count as nat, 0);
    law_prints_read(row.payload_bytes_avg as nat, 0);
}

/// What stands under the columns of the report of the scenario matrix, in the second half of them:
/// numbers as they are read back, and texts as they are.
pub proof fn law_matrix_last_fields(row: ResultRow)
    ensures
        ({
            let f = result_fields_of(row);
            &&& f.len() == 26
            &&& f[13] == row.duration_ms@
            &&& f[14] == row.throughput@
            &&& reads_as(f[15], row.errors as nat)
            &&& f[16] == row.latency.mean@
            &&& f[17] == row.latency.p50@
            &&& f[18] == row.latency.p95@
            &&& f[19] == row.latency.p99@
            &&& f[20] == row.latency.min@
            &&& f[21] == row.latency.max@
            &&& f[22] == row.cpu_user_ms@
            &&& f[23] == row.cpu_system_ms@
            &&& reads_as_signed(f[24], row.rss_bytes_delta as int)
            &&& reads_as_signed(f[25], row.maxrss_kb_after as int)
        }),
{
    law_prints_read(row.errors as nat, 0);
    law_prints_read(0, row.rss_bytes_delta as int);
    law_prints_read(0, row.maxrss_kb_after as int);
}

/// The columns of the report on trials in one process. There is a line for them, and then one
/// for each row, with its fields.
pub proof fn law_rust_pps_columns(rows: Seq<RustPpsRow>, i: int)
    ensures
        rust_pps_columns() == seq![
            "protocol"@,
            "profile"@,
            "payload"@,
            "target_pps"@,
            "repeat_index"@,
            "duration_ms"@,
            "actual_req_s"@,
            "scheduled_requests"@,
            "sent_requests"@,
            "completed_requests"@,
            "successes"@,
            "errors"@,
            "mean_ms"@,
            "p95_ms"@,
            "p99_ms"@,
            "process_cpu_percent"@,
            "process_mib"@,
            "maxrss_mib"@,
        ],
        rust_pps_lines(rows).len() == rows.len() + 1,
        rust_pps_lines(rows)[0] == comma_joined(rust_pps_columns()),
        0 <= i < rows.len() ==> rust_pps_lines(rows)[i + 1] == comma_joined(
            rust_pps_fields_of(rows[i]),
        ),
{
}

/// What stands under the columns of the report on trials in one process:
/// numbers as they are read back, and texts as they are.
pub proof fn law_rust_pps_fields(row: RustPpsRow)
    ensures
        ({
            let f = rust_pps_fields_of(row);
            &&& f.len() == 18
            &&& f[0] == row.protocol.short_name()
            &&& f[1] == "clean"@
            &&& f[2] == payload_label_of(row.payload_size as nat)
            &&& reads_as(f[3], row.target_pps as nat)
            &&& reads_as(f[4], row.repeat_index as nat)
            &&& f[5] == row.duration_ms@
            &&& f[6] == row.actual_req_s@
            &&& reads_as(f[7], row.scheduled_requests as nat)
            &&& reads_as(f[8], row.sent_requests as nat)
            &&& reads_as(f[9], row.completed_requests as nat)
            &&& reads_as(f[10], row.successes as nat)
            &&& reads_as(f[11], row.errors as nat)
            &&& f[12] == row.mean_ms@
            &&& f[13] == row.p95_ms@
            &&& f[14] == row.p99_ms@
            &&& f[15] == row.process_cpu_percent@
            &&& f[16] == row.process_mib@
            &&& f[17] == row.maxrss_mib@
        }),
{
    law_prints_read(row.target_pps as nat, 0);
    law_prints_read(row.repeat_index as nat, 0);
    law_prints_read(row.scheduled_requests as nat, 0);
    law_prints_read(row.sent_requests as nat, 0);
    law_prints_read(row.completed_requests as nat, 0);
    law_prints_read(row.successes as nat, 0);
    law_prints_read(row.errors as nat, 0);
}

/// The columns of the report on trials against a server outside. There is a line for them, and
/// then one for each row, with its fields.
pub proof fn law_nginx_columns(rows: Seq<NginxPpsRow>, i: int)
    ensures
        nginx_columns() == seq![
            "protocol"@,
            "profile"@,
            "payload"@,
            "target_pps"@,
            "repeat_index"@,
            "duration_ms"@,
            "actual_req_s"@,
            "scheduled_requests"@,
            "sent_requests"@,
            "completed_requests"@,
            "successes"@,
            "errors"@,
            "mean_ms"@,
            "p95_ms"@,
            "p99_ms"@,
            "nginx_cpu_percent"@,
            "nginx_mib"@,
            "client_cpu_percent"@,
            "client_mib"@,
        ],
        nginx_lines(rows).len() == rows.len() + 1,
        nginx_lines(rows)[0] == comma_joined(nginx_columns()),
        0 <= i < rows.len() ==> nginx_lines(rows)[i + 1] == comma_joined(
            nginx_fields_of(rows[i]),
        ),
{
}

/// What stands under the columns of the report on trials against a server outside:
/// numbers as they are read back, and texts as they are.
pub proof fn law_nginx_fields(row: NginxPpsRow)
    ensures
        ({
            let f = nginx_fields_of(row);
            &&& f.len() == 19
            &&& f[0] == row.protocol.short_name()
            &&& f[1] == "clean"@
            &&& f[2] == payload_label_of(row.payload_size as nat)
            &&& reads_as(f[3], row.target_pps as nat)
            &&& reads_as(f[4], row.repeat_index as nat)
            &&& f[5] == row.duration_ms@
            &&& f[6] == row.actual_req_s@
            &&& reads_as(f[7], row.scheduled_requests as nat)
            &&& reads_as(f[8], row.sent_requests as nat)
            &&& reads_as(f[9], row.completed_requests as nat)
            &&& reads_as(f[10], row.successes as nat)
            &&& reads_as(f[11], row.errors as nat)
            &&& f[12] == row.mean_ms@
            &&& f[13] == row.p95_ms@
            &&& f[14] == row.p99_ms@
            &&& f[15] == row.nginx_cpu_percent@
            &&& f[16] == row.nginx_mib@
            &&& f[17] == row.client_cpu_percent@
            &&& f[18] == row.client_mib@
        }),
{
    law_prints_read(row.target_pps as nat, 0);
    law_prints_read(row.repeat_index as nat, 0);
    law_prints_read(row.scheduled_requests as nat, 0);
    law_prints_read(row.sent_requests as nat, 0);
    law_prints_read(row.completed_requests as nat, 0);
    law_prints_read(row.successes as nat, 0);
    law_prints_read(row.errors as nat, 0);
}

/// The columns of the report on trials that `h2load` drove. There is a line for them, and then one
/// for each row, with its fields.
pub proof fn law_h2load_columns(rows: Seq<H2LoadRateRow>, i: int)
    ensures
        h2load_columns() == seq![
            "protocol"@,
            "profile"@,
            "payload"@,
            "target_pps"@,
            "effective_target_pps"@,
            "repeat_index"@,
            "duration_ms"@,
            "actual_req_s"@,
            "requests_total"@,
            "requests_success"@,
            "requests_failed"@,
            "mean_ms"@,
            "p95_ms"@,
            "p99_ms"@,
            "server_cpu_percent"@,
            "server_mib"@,
            "client_cpu_percent"@,
            "client_mib"@,
            "h2load_status"@,
        ],
        h2load_lines(rows).len() == rows.len() + 1,
        h2load_lines(rows)[0] == comma_joined(h2load_columns()),
        0 <= i < rows.len() ==> h2load_lines(rows)[i + 1] == comma_joined(
            h2load_fields_of(rows[i]),
        ),
{
}

/// What stands under the columns of the report on trials that `h2load` drove:
/// numbers as they are read back, and texts as they are.
pub proof fn law_h2load_fields(row: H2LoadRateRow)
    ensures
        ({
            let f = h2load_fields_of(row);
            &&& f.len() == 19
            &&& f[0] == row.protocol.short_name()
            &&& f[1] == "clean"@
            &&& f[2] == payload_label_of(row.payload_size as nat)
            &&& reads_as(f[3], row.target_pps as nat)
            &&& reads_as(f[4], row.effective_target_pps as nat)
            &&& reads_as(f[5], row.repeat_index as nat)
            &&& f[6] == row.duration_ms@
            &&& f[7] == row.actual_req_s@
            &&& reads_as(f[8], row.requests_total as nat)
            &&& reads_as(f[9], row.requests_success as nat)
            &&& reads_as(f[10], row.requests_failed as nat)
            &&& f[11] == row.mean_ms@
            &&& f[12] == row.p95_ms@
            &&& f[13] == row.p99_ms@
            &&& f[14] == row.server_cpu_percent@
            &&& f[15] == row.server_mib@
            &&& f[16] == row.client_cpu_percent@
            &&& f[17] == row.client_mib@
            &&& reads_as_signed(f[18], row.h2load_status as int)
        }),
{
    law_prints_read(row.target_pps as nat, 0);
    law_prints_read(row.effective_target_pps as nat, 0);
    law_prints_read(row.repeat_index as nat, 0);
    law_prints_read(row.requests_total as nat, 0);
    law_prints_read(row.requests_success as nat, 0);
    law_prints_read(row.requests_failed as nat, 0);
    law_prints_read(0, row.h2load_status as int);
}

} // verus!
