use transportbench::error::UsageError;
use transportbench::h2load::{
    check_capabilities, check_clients, detect_h2load_capabilities, docker_h2load_container_name,
    h2load_command, parse_docker_mem, parse_h2load_log, payload_file, read_docker_sample,
    target_url, timing_requests, trial_file, write_timing_script, H2LoadCapabilities, MemUnit, TrialPaths,
};
use transportbench::h2load_config::H2LoadRateConfig;
use transportbench::http::{post_request, LOCAL_PATH};
use transportbench::protocol::Protocol;

fn config(args: &[&str]) -> H2LoadRateConfig {
    H2LoadRateConfig::from_args(args.iter().map(|arg| arg.to_string()).collect()).unwrap()
}

fn paths() -> TrialPaths {
    TrialPaths {
        payload: "p".to_string(),
        log: "l".to_string(),
        timing: "t".to_string(),
        url: target_url(99),
    }
}

const ALL: H2LoadCapabilities =
    H2LoadCapabilities { h3: true, rps: true, log_file: true, alpn_list: true };

#[test]
fn capabilities_come_from_the_help() {
    let caps = detect_h2load_capabilities("usage\n  --log-file=<PATH>\n  --rps=<N>");
    assert_eq!(
        caps,
        H2LoadCapabilities { h3: false, rps: true, log_file: true, alpn_list: false }
    );
    assert_eq!(detect_h2load_capabilities("--h3 --rps --log-file --alpn-list"), ALL);
    let cfg = config(&["-h2load", "x"]);
    assert!(check_capabilities(&cfg, &ALL).is_ok());
    let err = check_capabilities(&cfg, &H2LoadCapabilities { log_file: false, ..ALL }).unwrap_err();
    assert_eq!(err.message(), "x does not support --log-file");
    let no_h3 = H2LoadCapabilities { h3: false, ..ALL };
    assert_eq!(
        check_capabilities(&cfg, &no_h3).unwrap_err().message(),
        "x does not support --h3; provide a HTTP/3-enabled h2load with -h2load"
    );
    assert!(check_capabilities(&config(&["-protocols", "h2"]), &no_h3).is_ok());
}

#[test]
fn http3_takes_one_client() {
    let cfg = config(&["-clients", "2"]);
    assert!(check_clients(&cfg, Protocol::H2).is_ok());
    let err = check_clients(&cfg, Protocol::H3).unwrap_err();
    assert!(matches!(err, UsageError::H3Clients));
    assert_eq!(
        err.message(),
        "Rust h3 h2load-rate currently supports -clients 1 because the simple quiche server accepts one client connection"
    );
    assert!(check_clients(&config(&[]), Protocol::H3).is_ok());
}

#[test]
fn a_rate_is_shared_by_the_clients() {
    let cfg = config(&["-clients", "3", "-streams", "7", "-threads", "2", "-duration", "5"]);
    let command = h2load_command(&cfg, &ALL, Protocol::H2, 10, &paths()).unwrap();
    assert_eq!(
        command.args.join("|"),
        "--alpn-list=h2|-c|3|-m|7|-t|2|-H|content-type: application/octet-stream|-d|p|--log-file|l|-D|5s|--rps|4|https://localhost:99/sbi"
    );
    assert_eq!(command.effective_target_pps, 12);
    assert!(!command.timing_script);
    let even = h2load_command(&cfg, &ALL, Protocol::H3, 9, &paths()).unwrap();
    assert_eq!(even.effective_target_pps, 9);
    assert_eq!(even.args[0], "--h3");
}

#[test]
fn without_rates_the_times_are_listed() {
    let caps = H2LoadCapabilities { rps: false, alpn_list: false, ..ALL };
    let cfg = config(&["-duration", "5", "-h2load", "old"]);
    let command = h2load_command(&cfg, &caps, Protocol::H2, 10, &paths()).unwrap();
    assert_eq!(
        command.args.join("|"),
        "--npn-list=h2|-c|1|-m|100|-t|4|-H|content-type: application/octet-stream|-d|p|--log-file|l|-n|50|--timing-script-file|t|https://localhost:99/sbi"
    );
    assert_eq!(command.effective_target_pps, 10);
    assert!(command.timing_script);
    let many = config(&["-clients", "2", "-h2load", "old"]);
    assert_eq!(
        h2load_command(&many, &caps, Protocol::H2, 10, &paths()).unwrap_err().message(),
        "old lacks --rps; use -clients 1 or provide a newer h2load"
    );
    assert!(h2load_command(&many, &caps, Protocol::H2, usize::MAX, &paths()).is_err());
}

#[test]
fn due_times_are_listed_with_the_address() {
    let times = |pps: usize, seconds: u64| -> Vec<String> {
        (0..timing_requests(pps, seconds))
            .map(|i| format!("{:.6}", i as f64 * (1000.0 / pps as f64)))
            .collect()
    };
    assert_eq!(timing_requests(3000, 10), 30_000);
    assert_eq!(
        write_timing_script(4, 1, &times(4, 1), "U"),
        "0.000000\tU\n250.000000\tU\n500.000000\tU\n750.000000\tU\n"
    );
    assert_eq!(write_timing_script(2, 3, &times(2, 3), "U").lines().count(), 6);
    assert_eq!(
        write_timing_script(3, 1, &times(3, 1), "https://localhost:1/sbi"),
        "0.000000\thttps://localhost:1/sbi\n333.333333\thttps://localhost:1/sbi\n666.666667\thttps://localhost:1/sbi\n"
    );
    assert_eq!(write_timing_script(1, 0, &vec![], "x"), "");
}

#[test]
fn files_and_containers_are_named() {
    assert_eq!(payload_file(1024, 2), "payload-1024-2.bin");
    assert_eq!(
        trial_file(Protocol::H3, 1024, 3000, 2, "log"),
        "h3-payload1024-pps3000-rep2.log"
    );
    assert_eq!(
        docker_h2load_container_name("./scripts/h2load-docker.sh", Protocol::H2, 5, 77),
        Some("rust-h2load-77-h2-5".to_string())
    );
    assert_eq!(docker_h2load_container_name("h2load", Protocol::H2, 5, 77), None);
}

#[test]
fn logs_are_counted() {
    let log = parse_h2load_log("1\t200\t15\n2\t204\t7\r\n3\t503\t9\n4\t-1\tx\n5\n\n6\tabc\t3\t200\n7\t299\t");
    assert_eq!(log.latencies, vec![15_000, 7_000, 9_000, 3_000]);
    assert_eq!((log.success, log.failed), (3, 2));
    let empty = parse_h2load_log("");
    assert!(empty.latencies.is_empty());
    assert_eq!((empty.success, empty.failed), (0, 0));
    assert_eq!(
        parse_h2load_log("a\t199\t18446744073709551615").latencies,
        vec![18_446_744_073_709_551_615_000]
    );
}

#[test]
fn container_samples_are_read() {
    let sample = read_docker_sample("12.5% , 1.5 GiB / 8GiB\nmore").unwrap();
    assert_eq!((sample.cpu.as_str(), sample.mem.as_str()), ("12.5", "1.5"));
    assert_eq!(sample.unit, MemUnit::Gigabytes);
    assert!(read_docker_sample("").is_none());
    assert!(read_docker_sample("12%").is_none());
    for (text, number, unit) in [
        ("5B", "5", MemUnit::Bytes),
        ("5kB / 1", "5", MemUnit::Kilobytes),
        ("5KB", "5", MemUnit::Kilobytes),
        ("5KiB", "5", MemUnit::Kilobytes),
        ("5MB", "5", MemUnit::Megabytes),
        ("5 Mi B", "5", MemUnit::Megabytes),
        ("5GB", "5", MemUnit::Gigabytes),
        ("5TB", "5", MemUnit::Megabytes),
        ("", "", MemUnit::Megabytes),
    ] {
        let (got, known) = parse_docker_mem(text);
        assert_eq!((got.as_str(), known), (number, unit), "{text}");
    }
}

#[test]
fn requests_carry_their_length() {
    let request = post_request(LOCAL_PATH, 12);
    assert_eq!((request.method.as_str(), request.uri.as_str()), ("POST", "/sbi"));
    assert_eq!(request.content_type, "application/json");
    assert_eq!(request.content_length, "12");
}
