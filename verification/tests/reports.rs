use std::time::Duration;
use transportbench::csv::{
    payload_label, write_csv, write_h2load_rate_csv, write_nginx_pps_csv, write_rust_pps_csv,
    H2LoadRateRow, LatencyTexts, NginxPpsRow, ResultRow, RustPpsRow,
};
use transportbench::mode::OverloadMode;
use transportbench::netem::FailureProfile;
use transportbench::overload_report::{
    chart_csv, overload_claim_supported, overload_comparisons, requests_handled,
    write_overload_csv, write_summary_report, Figure, OverloadResultRow, OverloadResults,
};
use transportbench::overload_server::OverloadServerStats;
use transportbench::percent::Percent;
use transportbench::plan::{OverloadScenario, Scenario};
use transportbench::protocol::Protocol;

fn ms(duration: Duration) -> f64 {
    duration.as_secs_f64() * 1000.0
}

fn ms_text(duration: Duration) -> String {
    format!("{:.3}", ms(duration))
}

fn figure(value: f64) -> Figure {
    Figure { bits: value.to_bits(), text: format!("{value:.3}") }
}

fn latency_texts(figures: [Duration; 6]) -> LatencyTexts {
    let [mean, p50, p95, p99, min, max] = figures;
    LatencyTexts {
        mean: ms_text(mean),
        p50: ms_text(p50),
        p95: ms_text(p95),
        p99: ms_text(p99),
        min: ms_text(min),
        max: ms_text(max),
    }
}

fn columns(csv: &str) -> Vec<usize> {
    csv.lines().map(|line| line.split(',').count()).collect()
}

#[test]
fn csv_records_benchmark_controls() {
    let row = ResultRow {
        scenario: Scenario {
            protocol: Protocol::H2,
            users: 2,
            messages_per_user: 3,
            failure: FailureProfile::none(),
        },
        repeat_index: 2,
        payload_count: 4,
        payload_bytes_avg: 5,
        duration_ms: ms_text(Duration::from_millis(10)),
        throughput: format!("{:.2}", 600.0),
        errors: 0,
        latency: latency_texts([
            Duration::from_millis(1),
            Duration::from_millis(1),
            Duration::from_millis(2),
            Duration::from_millis(3),
            Duration::from_micros(500),
            Duration::from_millis(4),
        ]),
        cpu_user_ms: ms_text(Duration::from_millis(5)),
        cpu_system_ms: ms_text(Duration::from_millis(6)),
        rss_bytes_delta: 7,
        maxrss_kb_after: 8,
    };
    let csv = write_csv(&vec![row]);

    let mut lines = csv.lines();
    let header = lines.next().unwrap();
    assert!(header.contains("runtime_worker_threads"));
    assert!(header.contains("workload_model"));
    assert!(header.contains("client_scheduler"));
    assert!(header.contains("server_scheduler"));
    assert!(header.contains("run_order"));
    let data = lines.next().unwrap();
    assert!(data.contains(
        ",2,serial_per_user,tokio_user_tasks,in_connection_futures,interleaved_by_repeat,"
    ));
    assert!(data.starts_with("h2,2,3,6,2,"));
    assert_eq!(
        data,
        "h2,2,3,6,2,2,serial_per_user,tokio_user_tasks,in_connection_futures,interleaved_by_repeat,4,5,none,10.000,600.00,0,1.000,1.000,2.000,3.000,0.500,4.000,5.000,6.000,7,8"
    );
    assert_eq!(columns(&csv), vec![26, 26]);
    assert!(csv.ends_with("\n"));
    assert_eq!(write_csv(&vec![]).lines().count(), 1);
}

#[test]
fn overload_csv_records_new_metrics() {
    let row = OverloadResultRow {
        scenario: OverloadScenario {
            mode: OverloadMode::Reset,
            total_requests: 10,
            concurrency: 4,
            payload_size: 1024,
            threshold: 2,
            reject_percent: Percent::from_bits(5.0f64.to_bits()).unwrap(),
        },
        reject_percent: format!("{:.3}", 5.0),
        reject_percent_label: format!("{:.1}", 5.0),
        repeat_index: 1,
        duration_ms: ms_text(Duration::from_millis(10)),
        throughput: format!("{:.2}", 1000.0),
        successes: 2,
        rejected: 0,
        reset_streams: 8,
        errors: 0,
        latency: latency_texts([
            Duration::from_millis(1),
            Duration::from_millis(1),
            Duration::from_millis(2),
            Duration::from_millis(3),
            Duration::from_micros(500),
            Duration::from_millis(4),
        ]),
        latency_p95_exact: format!("{:.6}", 2.0),
        rejection_mean_ms: figure(ms(Duration::from_millis(1))),
        rejection_p95_ms: ms_text(Duration::from_millis(2)),
        rejection_p99_ms: ms_text(Duration::from_millis(3)),
        server: OverloadServerStats {
            bytes_read: 2048,
            handling_time: Duration::from_millis(5).as_nanos(),
            accepted_requests: 2,
            successful_requests: 2,
            app_rejections: 0,
            reset_rejections: 8,
            peak_inflight: 2,
        },
        server_ms: figure(ms(Duration::from_millis(5))),
        server_avg_ms: format!("{:.3}", 5.0 / 10.0),
        cpu_user_ms: ms_text(Duration::from_millis(1)),
        cpu_system_ms: ms_text(Duration::from_millis(2)),
        cpu_total_ms: format!("{:.3}", 3.0),
        cpu_percent: format!("{:.2}", 30.0),
        rss_bytes_delta: 3,
        maxrss_kb_after: 4,
    };
    assert_eq!(requests_handled(&row.server), 10);
    let mut results = OverloadResults::start();
    results.push(row);
    let csv = write_overload_csv(results.rows(OverloadMode::Reset));

    let header = csv.lines().next().unwrap();
    assert!(header.contains("server_bytes_read"));
    assert!(header.contains("server_handling_time_ms"));
    assert!(header.contains("reset_streams"));
    assert!(header.contains("reject_percent"));
    assert!(header.contains("cpu_percent"));
    assert!(csv.contains("reset,10,4,1024,2,5.000,1,"));
    assert_eq!(
        csv.lines().nth(1).unwrap(),
        "reset,10,4,1024,2,5.000,1,10.000,1000.00,2,0,8,0,1.000,1.000,2.000,3.000,0.500,4.000,1.000,2.000,3.000,2048,5.000,0.500,2,2,0,8,2,1.000,2.000,3.000,30.00,3,4"
    );
    assert_eq!(columns(&csv), vec![36, 36]);
    assert_eq!(write_overload_csv(results.rows(OverloadMode::App503)).lines().count(), 1);
    assert_eq!(chart_csv(&results), "reset,1024,4,r5.0,1,2.000000,2048");
}

fn results(rows: Vec<OverloadResultRow>) -> OverloadResults {
    let mut results = OverloadResults::start();
    for row in rows {
        results.push(row);
    }
    results
}

#[test]
fn overload_claim_requires_lower_reset_costs() {
    let app = test_overload_row(OverloadMode::App503, 10_000, 20, 3.0);
    let reset = test_overload_row(OverloadMode::Reset, 1_000, 5, 1.0);
    assert!(overload_claim_supported(&results(vec![app.clone(), reset])));

    let weak_reset = test_overload_row(OverloadMode::Reset, 20_000, 5, 1.0);
    assert!(!overload_claim_supported(&results(vec![app, weak_reset])));
}

fn test_overload_row(
    mode: OverloadMode,
    bytes_read: usize,
    handling_ms: u64,
    rejection_ms: f64,
) -> OverloadResultRow {
    let handling_time = Duration::from_millis(handling_ms);
    let rejection_mean = Duration::from_nanos((rejection_ms * 1_000_000.0) as u64);
    OverloadResultRow {
        scenario: OverloadScenario {
            mode,
            total_requests: 10,
            concurrency: 4,
            payload_size: 1024,
            threshold: 2,
            reject_percent: Percent::zero(),
        },
        reject_percent: format!("{:.3}", 0.0),
        reject_percent_label: format!("{:.1}", 0.0),
        repeat_index: 1,
        duration_ms: ms_text(Duration::from_millis(10)),
        throughput: format!("{:.2}", 1000.0),
        successes: 0,
        rejected: 0,
        reset_streams: 0,
        errors: 0,
        latency: latency_texts([Duration::ZERO; 6]),
        latency_p95_exact: format!("{:.6}", 0.0),
        rejection_mean_ms: figure(ms(rejection_mean)),
        rejection_p95_ms: ms_text(Duration::ZERO),
        rejection_p99_ms: ms_text(Duration::ZERO),
        server: OverloadServerStats {
            bytes_read,
            handling_time: handling_time.as_nanos(),
            accepted_requests: 1,
            ..OverloadServerStats::default()
        },
        server_ms: figure(ms(handling_time)),
        server_avg_ms: ms_text(handling_time),
        cpu_user_ms: ms_text(Duration::ZERO),
        cpu_system_ms: ms_text(Duration::ZERO),
        cpu_total_ms: ms_text(Duration::ZERO),
        cpu_percent: format!("{:.2}", 0.0),
        rss_bytes_delta: 0,
        maxrss_kb_after: 0,
    }
}

#[test]
fn the_claim_compares_each_figure() {
    let app = test_overload_row(OverloadMode::App503, 10_000, 20, 3.0);
    let holds = |reset: OverloadResultRow| {
        overload_claim_supported(&results(vec![app.clone(), reset]))
    };
    assert!(holds(test_overload_row(OverloadMode::Reset, 9_999, 19, 2.9)));
    assert!(!holds(test_overload_row(OverloadMode::Reset, 10_000, 19, 2.9)));
    assert!(!holds(test_overload_row(OverloadMode::Reset, 9_999, 20, 2.9)));
    assert!(!holds(test_overload_row(OverloadMode::Reset, 9_999, 19, 3.0)));
    assert!(!holds(test_overload_row(OverloadMode::Reset, 9_999, 19, 3.1)));
    assert!(!overload_claim_supported(&results(vec![app])));
    assert!(!overload_claim_supported(&results(vec![])));
}

#[test]
fn comparisons_ignore_the_order_of_the_runs() {
    let row = |mode, payload, repeat, bytes| {
        let mut row = test_overload_row(mode, bytes, 1, 1.0);
        row.scenario.payload_size = payload;
        row.repeat_index = repeat;
        row
    };
    let (a, r) = (OverloadMode::App503, OverloadMode::Reset);
    let rows = vec![
        row(a, 2, 1, 100),
        row(r, 2, 1, 200),
        row(a, 1, 2, 101),
        row(r, 1, 2, 201),
        row(a, 1, 1, 102),
        row(r, 1, 1, 202),
        row(r, 3, 1, 203),
    ];
    let compared = |rows: Vec<OverloadResultRow>| -> Vec<(usize, usize)> {
        let results = results(rows);
        overload_comparisons(&results)
            .into_iter()
            .map(|(x, y)| {
                (
                    results.rows(OverloadMode::App503)[x].server.bytes_read,
                    results.rows(OverloadMode::Reset)[y].server.bytes_read,
                )
            })
            .collect()
    };
    let mut turned = rows.clone();
    turned.reverse();
    let mut shifted = rows.clone();
    shifted.rotate_left(3);
    assert_eq!(compared(rows), vec![(102, 202), (101, 201), (100, 200)]);
    assert_eq!(compared(turned), vec![(102, 202), (101, 201), (100, 200)]);
    assert_eq!(compared(shifted), vec![(102, 202), (101, 201), (100, 200)]);
}

#[test]
fn comparisons_are_in_the_order_of_their_keys() {
    let row = |mode, payload, concurrency, threshold, percent: f64, repeat, bytes| {
        let mut row = test_overload_row(mode, bytes, 1, 1.0);
        row.scenario.payload_size = payload;
        row.scenario.concurrency = concurrency;
        row.scenario.threshold = threshold;
        row.scenario.reject_percent = Percent::from_bits(percent.to_bits()).unwrap();
        row.repeat_index = repeat;
        row
    };
    let a = OverloadMode::App503;
    let r = OverloadMode::Reset;
    let results = results(vec![
        row(a, 2, 1, 1, 0.0, 1, 100),
        row(a, 1, 2, 1, 0.0, 2, 101),
        row(a, 1, 2, 1, 0.0, 1, 102),
        row(a, 1, 2, 1, 0.0, 1, 103),
        row(a, 1, 1, 1, 5.0, 1, 104),
        row(a, 1, 1, 1, 0.0, 1, 105),
        row(r, 1, 2, 1, 0.0, 1, 200),
        row(r, 1, 2, 1, 0.0, 2, 201),
        row(r, 2, 1, 1, 0.0, 1, 202),
        row(r, 2, 1, 1, 0.0, 1, 203),
        row(r, 1, 1, 1, 5.0, 1, 204),
        row(r, 1, 1, 2, 0.0, 1, 205),
    ]);
    let pairs: Vec<(usize, usize)> = overload_comparisons(&results)
        .into_iter()
        .map(|(x, y)| {
            (
                results.rows(a)[x].server.bytes_read,
                results.rows(r)[y].server.bytes_read,
            )
        })
        .collect();
    assert_eq!(pairs, vec![(104, 204), (103, 200), (101, 201), (100, 203)]);
}

#[test]
fn the_summary_lists_the_comparisons() {
    let app = test_overload_row(OverloadMode::App503, 10_000, 20, 3.0);
    let reset = test_overload_row(OverloadMode::Reset, 1_000, 5, 1.0);
    let text = write_summary_report(&results(vec![app.clone(), reset]));
    let lines: Vec<&str> = text.lines().collect();
    assert_eq!(lines.len(), 14);
    assert_eq!(lines[0], "# QUIC Overload-Handling Experiment");
    assert_eq!(lines[1], "");
    assert_eq!(lines[9], "Observed outcome: supported by the completed matched scenarios.");
    assert!(lines[11].starts_with("| Payload bytes | Concurrency |"));
    assert_eq!(
        lines[13],
        "| 1024 | 4 | 2 | 10000 | 1000 | 20.000 | 5.000 | 0.00 | 0.00 | 3.000 | 1.000 |"
    );
    let text = write_summary_report(&results(vec![app]));
    assert_eq!(
        text.lines().nth(9).unwrap(),
        "Observed outcome: not consistently supported by the completed matched scenarios."
    );
    assert_eq!(text.lines().count(), 13);
}

#[test]
fn charts_take_the_rows_of_one_mode_after_the_other() {
    let mut reset = test_overload_row(OverloadMode::Reset, 7, 5, 1.0);
    reset.latency_p95_exact = "1.500000".to_string();
    let app = test_overload_row(OverloadMode::App503, 9, 20, 3.0);
    assert_eq!(
        chart_csv(&results(vec![reset.clone(), app, reset])),
        "app503,1024,4,t2,1,0.000000,9\nreset,1024,4,t2,1,1.500000,7\nreset,1024,4,t2,1,1.500000,7"
    );
    assert_eq!(chart_csv(&results(vec![])), "");
}

#[test]
fn payloads_have_short_names() {
    assert_eq!(payload_label(0), "0b");
    assert_eq!(payload_label(1000), "1000b");
    assert_eq!(payload_label(1024), "1k");
    assert_eq!(payload_label(1536), "1536b");
    assert_eq!(payload_label(65536), "64k");
}

#[test]
fn rates_are_reported() {
    let text = |s: &str| s.to_string();
    let csv = write_rust_pps_csv(&vec![RustPpsRow {
        protocol: Protocol::H3,
        payload_size: 1024,
        target_pps: 1000,
        repeat_index: 2,
        duration_ms: text("1.000"),
        actual_req_s: text("2.0"),
        scheduled_requests: 3,
        sent_requests: 4,
        completed_requests: 5,
        successes: 6,
        errors: 7,
        mean_ms: text("8.000"),
        p95_ms: text("9.000"),
        p99_ms: text("10.000"),
        process_cpu_percent: text("11.00"),
        process_mib: text("12.00"),
        maxrss_mib: text("13.00"),
    }]);
    assert_eq!(
        csv.lines().nth(1).unwrap(),
        "h3,clean,1k,1000,2,1.000,2.0,3,4,5,6,7,8.000,9.000,10.000,11.00,12.00,13.00"
    );
    assert_eq!(columns(&csv), vec![18, 18]);
    let csv = write_nginx_pps_csv(&vec![NginxPpsRow {
        protocol: Protocol::H2,
        payload_size: 10,
        target_pps: 1000,
        repeat_index: 2,
        duration_ms: text("1.000"),
        actual_req_s: text("2.0"),
        scheduled_requests: 3,
        sent_requests: 4,
        completed_requests: 5,
        successes: 6,
        errors: 7,
        mean_ms: text("8.000"),
        p95_ms: text("9.000"),
        p99_ms: text("10.000"),
        nginx_cpu_percent: text("11.00"),
        nginx_mib: text("12.00"),
        client_cpu_percent: text("13.00"),
        client_mib: text("14.00"),
    }]);
    assert_eq!(
        csv.lines().nth(1).unwrap(),
        "h2,clean,10b,1000,2,1.000,2.0,3,4,5,6,7,8.000,9.000,10.000,11.00,12.00,13.00,14.00"
    );
    assert_eq!(columns(&csv), vec![19, 19]);
    let csv = write_h2load_rate_csv(&vec![H2LoadRateRow {
        protocol: Protocol::H2,
        payload_size: 2048,
        target_pps: 10,
        effective_target_pps: 12,
        repeat_index: 1,
        duration_ms: text("1.000"),
        actual_req_s: text("2.0"),
        requests_total: 3,
        requests_success: 4,
        requests_failed: 5,
        mean_ms: text("6.000"),
        p95_ms: text("7.000"),
        p99_ms: text("8.000"),
        server_cpu_percent: text("9.00"),
        server_mib: text("10.00"),
        client_cpu_percent: text("11.00"),
        client_mib: text("12.00"),
        h2load_status: -1,
    }]);
    assert_eq!(
        csv.lines().nth(1).unwrap(),
        "h2,clean,2k,10,12,1,1.000,2.0,3,4,5,6.000,7.000,8.000,9.00,10.00,11.00,12.00,-1"
    );
    assert_eq!(columns(&csv), vec![19, 19]);
}
