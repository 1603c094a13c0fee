use transportbench::config::Config;
use transportbench::error::{Subcommand, UsageError};
use transportbench::h2load_config::H2LoadRateConfig;
use transportbench::help::help_text;
use transportbench::mode::OverloadMode;
use transportbench::netem::{FailureProfile, Netem};
use transportbench::nginx_config::NginxPpsConfig;
use transportbench::overload_config::OverloadConfig;
use transportbench::pps_config::RustPpsConfig;
use transportbench::protocol::{parse_protocols, Protocol};
use transportbench::target::TargetEndpoint;

fn strings(args: &[&str]) -> Vec<String> {
    args.iter().map(|arg| arg.to_string()).collect()
}

fn numbers(args: &[String]) -> Vec<Option<u64>> {
    args.iter()
        .map(|arg| arg.parse::<f64>().ok().map(f64::to_bits))
        .collect()
}

fn overload(args: &[&str]) -> Result<OverloadConfig, UsageError<String>> {
    let args = strings(args);
    let numbers = numbers(&args);
    OverloadConfig::from_args(args, numbers)
}

fn matrix_error(args: &[&str]) -> String {
    Config::from_args(strings(args)).unwrap_err().message()
}

#[test]
fn parses_config() {
    let cfg = Config::from_args(vec![
        "-protocols".to_string(),
        "h2,h2-inline,h3".to_string(),
        "-users".to_string(),
        "1,4".to_string(),
        "-messages".to_string(),
        "5".to_string(),
        "-repeat".to_string(),
        "2".to_string(),
    ])
    .unwrap();
    assert_eq!(cfg.protocols, vec![Protocol::H2, Protocol::H3]);
    assert_eq!(cfg.users, vec![1, 4]);
    assert_eq!(cfg.messages, vec![5]);
    assert_eq!(cfg.repeats, 2);
}

#[test]
fn netem_profile_requires_flag() {
    let err = Config::from_args(vec!["-failures".to_string(), "delay100ms".to_string()])
        .unwrap_err();
    assert!(err.message().contains("requires -netem"));
}

#[test]
fn parses_overload_config() {
    let args = vec![
        "-requests".to_string(),
        "20".to_string(),
        "-concurrency".to_string(),
        "4,8".to_string(),
        "-payload-sizes".to_string(),
        "1024,2048".to_string(),
        "-thresholds".to_string(),
        "2".to_string(),
        "-reject-percent".to_string(),
        "5".to_string(),
        "-modes".to_string(),
        "reset,app503".to_string(),
        "-repeat".to_string(),
        "2".to_string(),
        "-output-dir".to_string(),
        "/tmp/quic-overload".to_string(),
    ];
    let bits = numbers(&args);
    let cfg = OverloadConfig::from_args(args, bits).unwrap();
    assert_eq!(cfg.total_requests, 20);
    assert_eq!(cfg.concurrency, vec![4, 8]);
    assert_eq!(cfg.payload_sizes, vec![1024, 2048]);
    assert_eq!(cfg.thresholds, vec![2]);
    assert_eq!(f64::from_bits(cfg.reject_percent.bits()), 5.0);
    assert_eq!(cfg.modes, vec![OverloadMode::Reset, OverloadMode::App503]);
    assert_eq!(cfg.repeats, 2);
    assert_eq!(cfg.output_dir, "/tmp/quic-overload");
}

#[test]
fn defaults_of_every_command() {
    let cfg = Config::from_args(vec![]).unwrap();
    assert_eq!(cfg.payloads, "../../SBI_PAYLOADS.json");
    assert_eq!(cfg.protocols, vec![Protocol::H2, Protocol::H3]);
    assert_eq!(cfg.users, vec![1, 8, 32, 128]);
    assert_eq!(cfg.messages, vec![100, 1000]);
    assert_eq!(cfg.failures.len(), 1);
    assert_eq!(cfg.failures[0].name, "none");
    assert_eq!((cfg.repeats, cfg.netem, cfg.output), (1, false, None));

    let cfg = overload(&[]).unwrap();
    assert_eq!(cfg.total_requests, 1000);
    assert_eq!(cfg.concurrency, vec![50, 100, 200, 500]);
    assert_eq!(cfg.payload_sizes, vec![1024, 16384, 65536, 262144]);
    assert_eq!(cfg.thresholds, vec![20, 50]);
    assert_eq!(cfg.reject_percent.bits(), 0);
    assert_eq!(cfg.modes, vec![OverloadMode::App503, OverloadMode::Reset]);
    assert_eq!(cfg.output_dir, "reports/overload_results");

    let cfg = RustPpsConfig::from_args(vec![]).unwrap();
    assert_eq!(cfg.target_pps, vec![1000, 3000, 6000, 10000]);
    assert_eq!((cfg.duration, cfg.max_inflight, cfg.repeats), (10, 100, 1));
    assert_eq!(cfg.output, "reports/rust_pps_results/results.csv");

    let cfg = H2LoadRateConfig::from_args(vec![]).unwrap();
    assert_eq!((cfg.clients, cfg.streams, cfg.threads), (1, 100, 4));
    assert_eq!(cfg.h2load, "h2load");
    assert_eq!(cfg.log_dir, "reports/h2load_rate_rust/logs");

    let (targets, cfg) = NginxPpsConfig::from_args(vec![]);
    let cfg = cfg.unwrap();
    assert_eq!(targets.len(), 1);
    assert_eq!(targets[0].uri, "https://localhost:8443/api");
    assert_eq!((targets[0].host.as_str(), targets[0].port), ("localhost", 8443));
    assert_eq!(cfg.nginx_container, "quic-nginx");
    assert_eq!(cfg.target.path, "/api");
}

#[test]
fn long_and_short_flags_are_the_same() {
    let cfg = RustPpsConfig::from_args(strings(&[
        "--target-pps", "5, 6,,7 ", "--concurrency", "9", "--repeats", "3", "-duration", "4",
    ]))
    .unwrap();
    assert_eq!(cfg.target_pps, vec![5, 6, 7]);
    assert_eq!((cfg.max_inflight, cfg.repeats, cfg.duration), (9, 3, 4));
    let cfg = H2LoadRateConfig::from_args(strings(&[
        "-pps", "+8", "-clients", "2", "--streams", "3", "-threads", "5", "--h2load", "x",
        "-log-dir", "y", "-output", "z", "-protocols", "h3-quiche,h3",
    ]))
    .unwrap();
    assert_eq!(cfg.target_pps, vec![8]);
    assert_eq!((cfg.clients, cfg.streams, cfg.threads), (2, 3, 5));
    assert_eq!((cfg.h2load.as_str(), cfg.log_dir.as_str(), cfg.output.as_str()), ("x", "y", "z"));
    assert_eq!(cfg.protocols, vec![Protocol::H3]);
}

#[test]
fn every_argument_error_has_its_message() {
    assert_eq!(matrix_error(&["-x"]), "unknown argument -x");
    assert_eq!(matrix_error(&["-users"]), "-users requires a value");
    assert_eq!(matrix_error(&["-protocols", "h4"]), "unknown protocol \"h4\"");
    assert_eq!(matrix_error(&["-protocols", " , "]), "at least one protocol is required");
    assert_eq!(
        matrix_error(&["-users", "1,x\"y"]),
        "users contains non-integer value \"x\\\"y\""
    );
    assert_eq!(matrix_error(&["-messages", "1,0"]), "messages values must be positive");
    assert_eq!(matrix_error(&["-messages", ""]), "at least one messages value is required");
    assert_eq!(matrix_error(&["-repeat", "0"]), "repeats value must be positive");
    assert_eq!(
        matrix_error(&["-repeat", "-1"]),
        "repeats contains non-integer value \"-1\""
    );
    assert_eq!(matrix_error(&["-failures", "loss2"]), "unknown failure profile \"loss2\"");
    assert_eq!(matrix_error(&["-failures", ","]), "at least one failure profile is required");
    assert_eq!(
        matrix_error(&["-failures", "none,loss1"]),
        "failure profile \"loss1\" requires -netem"
    );
    assert_eq!(
        overload(&["-y"]).unwrap_err().message(),
        "unknown overload argument -y"
    );
    assert_eq!(
        overload(&["-reject-percent", "abc"]).unwrap_err().message(),
        "percent contains non-number value \"abc\""
    );
    for out in ["-0.1", "100.5", "nan", "inf", "-inf"] {
        assert_eq!(
            overload(&["-reject-percent", out]).unwrap_err().message(),
            "percent must be between 0 and 100"
        );
    }
    assert_eq!(
        overload(&["-modes", "app504"]).unwrap_err().message(),
        "unknown overload mode \"app504\""
    );
    assert_eq!(
        overload(&["-modes", ","]).unwrap_err().message(),
        "at least one overload mode is required"
    );
    assert_eq!(
        RustPpsConfig::from_args(strings(&["-z"])).unwrap_err().message(),
        "unknown rust-pps argument -z"
    );
    assert_eq!(
        H2LoadRateConfig::from_args(strings(&["-z"])).unwrap_err().message(),
        "unknown h2load-rate argument -z"
    );
    assert_eq!(
        NginxPpsConfig::from_args(strings(&["-z"])).1.unwrap_err().message(),
        "unknown rust-pps-nginx argument -z"
    );
    assert_eq!(
        NginxPpsConfig::from_args(strings(&["-target", "http://a"])).1.unwrap_err().message(),
        "target must start with https://"
    );
    assert_eq!(
        NginxPpsConfig::from_args(strings(&["-target", "https://a:b/c"])).1.unwrap_err().message(),
        "invalid target port in \"https://a:b/c\""
    );
    assert!(matches!(
        Config::from_args(strings(&["--help", "-x"])).unwrap_err(),
        UsageError::HelpRequested(Subcommand::Matrix)
    ));
    assert!(matches!(
        overload(&["-h"]).unwrap_err(),
        UsageError::HelpRequested(Subcommand::Overload)
    ));
}

#[test]
fn percentages_at_the_edges_are_accepted() {
    for text in ["0", "-0", "100", "5.25", "1e-320"] {
        let cfg = overload(&["-reject-percent", text]).unwrap();
        assert_eq!(
            f64::from_bits(cfg.reject_percent.bits()),
            text.parse::<f64>().unwrap()
        );
    }
}

#[test]
fn the_first_argument_selects_the_command() {
    let (command, rest) = Subcommand::select(strings(&["overload", "-requests", "1"]));
    assert!(matches!(command, Subcommand::Overload));
    assert_eq!(rest, strings(&["-requests", "1"]));
    let (command, rest) = Subcommand::select(strings(&["-users", "overload"]));
    assert!(matches!(command, Subcommand::Matrix));
    assert_eq!(rest, strings(&["-users", "overload"]));
    assert!(matches!(Subcommand::select(strings(&["h2load-rate"])).0, Subcommand::H2LoadRate));
    assert!(matches!(Subcommand::select(strings(&["rust-pps"])).0, Subcommand::RustPps));
    assert!(matches!(
        Subcommand::select(strings(&["rust-pps-nginx"])).0,
        Subcommand::RustPpsNginx
    ));
    assert!(matches!(Subcommand::select(vec![]).0, Subcommand::Matrix));
}

#[test]
fn protocols_are_listed_once_in_order() {
    assert_eq!(
        parse_protocols(" h3 ,h2-inline,h3-quiche, h2").unwrap(),
        vec![Protocol::H3, Protocol::H2]
    );
    assert_eq!(Protocol::H2.as_str(), "h2");
    assert_eq!(Protocol::H3.as_str(), "h3-quiche");
    assert_eq!(Protocol::H2.client_scheduler(), "tokio_user_tasks");
    assert_eq!(Protocol::H3.server_scheduler(), "quiche_readiness_loop");
}

#[test]
fn targets_are_taken_apart() {
    let t = TargetEndpoint::parse("https://example.org:1/a/b:c").unwrap();
    assert_eq!(
        (t.host.as_str(), t.authority.as_str(), t.path.as_str(), t.port),
        ("example.org", "example.org:1", "/a/b:c", 1)
    );
    let t = TargetEndpoint::parse("https://example.org").unwrap();
    assert_eq!(
        (t.host.as_str(), t.authority.as_str(), t.path.as_str(), t.port),
        ("example.org", "example.org", "/", 443)
    );
    let t = TargetEndpoint::parse("https://[::1]:65535/").unwrap();
    assert_eq!((t.host.as_str(), t.path.as_str(), t.port), ("[::1]", "/", 65535));
    assert!(TargetEndpoint::parse("https://a:65536").is_err());
    assert!(TargetEndpoint::parse("https://a:").is_err());
    assert!(TargetEndpoint::parse("HTTPS://a").is_err());
}

#[test]
fn hosts_are_looked_up_before_later_errors() {
    let (targets, cfg) = NginxPpsConfig::from_args(strings(&[
        "-target", "https://one:1/x", "-pps", "5", "--target", "https://two/", "-bad",
    ]));
    assert!(cfg.is_err());
    let hosts: Vec<&str> = targets.iter().map(|t| t.host.as_str()).collect();
    assert_eq!(hosts, vec!["localhost", "one", "two"]);
    let (targets, cfg) = NginxPpsConfig::from_args(strings(&["-target", "https://one:1/x"]));
    assert_eq!(cfg.unwrap().target.uri, targets[1].uri);
}

#[test]
fn network_conditions_become_commands() {
    let on = Netem { enabled: true };
    let off = Netem { enabled: false };
    let cfg = Config::from_args(strings(&["-netem", "-failures", "none,delay100ms_loss1"])).unwrap();
    assert!(on.apply(&FailureProfile::none()).is_none());
    assert!(off.apply(&cfg.failures[1]).is_none());
    assert_eq!(
        on.apply(&cfg.failures[1]).unwrap().join(" "),
        "qdisc replace dev lo root netem delay 100ms loss 1%"
    );
    assert_eq!(on.clear().unwrap().join(" "), "qdisc del dev lo root");
    assert!(off.clear().is_none());
    assert_eq!(
        Netem::refusal(&cfg.failures[1], "no tc"),
        "apply netem \"delay100ms_loss1\": no tc"
    );
}

#[test]
fn every_command_has_help() {
    let help = help_text(Subcommand::Matrix);
    assert!(help.starts_with("transportbench-rust\n\nSubcommands:\noverload   raw QUIC"));
    assert!(help.ends_with("-output reports/transportbench_rust.csv"));
    assert!(help_text(Subcommand::Overload).contains("\n-thresholds 20,50\n"));
    assert!(help_text(Subcommand::H2LoadRate).contains("\n-log-dir "));
    assert!(help_text(Subcommand::RustPps).starts_with("transportbench-rust rust-pps\n"));
    assert!(help_text(Subcommand::RustPpsNginx).contains("-nginx-container quic-nginx"));
}
