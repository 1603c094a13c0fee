use transportbench::config::Config;
use transportbench::h2load_config::H2LoadRateConfig;
use transportbench::nginx_config::NginxPpsConfig;
use transportbench::odometer::Odometer;
use transportbench::overload_config::OverloadConfig;
use transportbench::plan::{MatrixPlan, OverloadPlan, RatePlan};
use transportbench::pps_config::RustPpsConfig;

fn strings(args: &[&str]) -> Vec<String> {
    args.iter().map(|arg| arg.to_string()).collect()
}

#[test]
fn an_odometer_goes_through_all_combinations() {
    let mut cursor = Odometer::start(vec![2, 3]);
    let mut seen = Vec::new();
    loop {
        seen.push((cursor.digit(0), cursor.digit(1)));
        if !cursor.advance() {
            break;
        }
    }
    assert_eq!(seen, vec![(0, 0), (0, 1), (0, 2), (1, 0), (1, 1), (1, 2)]);
    assert_eq!((cursor.digit(0), cursor.digit(1)), (0, 0));
}

#[test]
fn the_matrix_is_run_in_order() {
    let cfg = Config::from_args(strings(&[
        "-netem", "-failures", "none,loss1", "-users", "1,2", "-messages", "5", "-repeat", "2",
    ]))
    .unwrap();
    let mut plan = MatrixPlan::start(&cfg);
    let mut seen = Vec::new();
    loop {
        let run = plan.run(&cfg);
        seen.push((
            run.scenario.failure.name.clone(),
            run.scenario.users,
            run.scenario.messages_per_user,
            run.repeat_index,
            run.scenario.protocol,
            run.first_of_failure,
        ));
        if !plan.advance(&cfg) {
            break;
        }
    }
    let mut wanted = Vec::new();
    for failure in &cfg.failures {
        let mut first = true;
        for users in &cfg.users {
            for messages in &cfg.messages {
                for repeat in 1..=cfg.repeats {
                    for protocol in &cfg.protocols {
                        wanted.push((
                            failure.name.clone(),
                            *users,
                            *messages,
                            repeat,
                            *protocol,
                            first,
                        ));
                        first = false;
                    }
                }
            }
        }
    }
    assert_eq!(seen, wanted);
}

#[test]
fn rates_are_tried_in_order() {
    let args = strings(&["-payload-sizes", "1,2", "-pps", "10,20", "-repeat", "2"]);
    let mut wanted = Vec::new();
    let cfg = RustPpsConfig::from_args(args.clone()).unwrap();
    for repeat in 1..=cfg.repeats {
        for payload in &cfg.payload_sizes {
            let mut first = true;
            for pps in &cfg.target_pps {
                for protocol in &cfg.protocols {
                    wanted.push((repeat, *payload, *pps, *protocol, first));
                    first = false;
                }
            }
        }
    }
    let h2load = H2LoadRateConfig::from_args(args.clone()).unwrap();
    let nginx = NginxPpsConfig::from_args(args).1.unwrap();
    for mut plan in [
        RatePlan::for_rust_pps(&cfg),
        RatePlan::for_h2load(&h2load),
        RatePlan::for_nginx(&nginx),
    ] {
        let mut seen = Vec::new();
        loop {
            let run = plan.run();
            seen.push((
                run.repeat_index,
                run.payload_size,
                run.target_pps,
                run.protocol,
                run.first_of_payload,
            ));
            if !plan.advance() {
                break;
            }
        }
        assert_eq!(seen, wanted);
    }
}

#[test]
fn the_overload_experiment_is_run_in_order() {
    let args = strings(&[
        "-requests", "7", "-concurrency", "1,2", "-payload-sizes", "3,4", "-thresholds", "5,6",
        "-repeat", "2",
    ]);
    let numbers = args.iter().map(|_| None).collect();
    let cfg = OverloadConfig::from_args(args, numbers).unwrap();
    let mut plan = OverloadPlan::start(&cfg);
    let mut seen = Vec::new();
    loop {
        let run = plan.run(&cfg);
        assert_eq!(run.scenario.total_requests, 7);
        seen.push((
            run.repeat_index,
            run.scenario.payload_size,
            run.scenario.concurrency,
            run.scenario.threshold,
            run.scenario.mode,
        ));
        if !plan.advance(&cfg) {
            break;
        }
    }
    let mut wanted = Vec::new();
    for repeat in 1..=2 {
        for payload in [3, 4] {
            for concurrency in [1, 2] {
                for threshold in [5, 6] {
                    for mode in &cfg.modes {
                        wanted.push((repeat, payload, concurrency, threshold, *mode));
                    }
                }
            }
        }
    }
    assert_eq!(seen, wanted);
}
