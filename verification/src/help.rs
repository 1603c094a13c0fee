//! What the program prints where help is asked for.
use crate::error::Subcommand;
use vstd::prelude::*;
use vstd::string::*;

verus! {

/// The help of a subcommand.
pub open spec fn help_of(command: Subcommand) -> Seq<char> {
    match command {
        Subcommand::Matrix => "transportbench-rust\n\n\
                Subcommands:\n\
                overload   raw QUIC overload-handling experiment\n\n\
                h2load-rate   Rust server with h2load target-PPS client\n\n\
                rust-pps   Rust client/server fixed-PPS benchmark\n\n\
                rust-pps-nginx   Rust client fixed-PPS benchmark against NGINX\n\n\
                Flags:\n\
                -payloads ../../SBI_PAYLOADS.json\n\
                -protocols h2,h3\n\
                -users 1,8,32,128\n\
                -messages 100,1000\n\
                -failures none,loss0.001,loss0.01,loss0.1,loss1,delay100ms,delay1s,delay100ms_loss1\n\
                -repeat 1\n\
                -netem\n\
                -output reports/transportbench_rust.csv"@,
        Subcommand::Overload => "transportbench-rust overload\n\n\
                Flags:\n\
                -requests 1000\n\
                -concurrency 50,100,200,500\n\
                -payload-sizes 1024,16384,65536,262144\n\
                -thresholds 20,50\n\
                -reject-percent 0\n\
                -modes app503,reset\n\
                -repeat 1\n\
                -output-dir ./reports/overload_results"@,
        Subcommand::H2LoadRate => "transportbench-rust h2load-rate\n\n\
                Starts the Rust server and drives it with h2load at target request rates.\n\n\
                Flags:\n\
                -protocols h2,h3\n\
                -payload-sizes 1024\n\
                -pps 1000,3000,6000,10000\n\
                -duration 10\n\
                -clients 1\n\
                -streams 100\n\
                -threads 4\n\
                -repeat 1\n\
                -h2load h2load\n\
                -output ./reports/h2load_rate_rust/results.csv\n\
                -log-dir ./reports/h2load_rate_rust/logs"@,
        Subcommand::RustPps => "transportbench-rust rust-pps\n\n\
                Uses the Rust client and Rust server with fixed target request rates.\n\n\
                Flags:\n\
                -protocols h2,h3\n\
                -payload-sizes 1024\n\
                -pps 1000,3000,6000,10000\n\
                -duration 10\n\
                -max-inflight 100\n\
                -repeat 1\n\
                -output ./reports/rust_pps_results/results.csv"@,
        Subcommand::RustPpsNginx => "transportbench-rust rust-pps-nginx\n\n\
                Uses the Rust fixed-PPS client against an external NGINX H2/H3 endpoint.\n\n\
                Flags:\n\
                -target https://localhost:8443/api\n\
                -nginx-container quic-nginx\n\
                -protocols h2,h3\n\
                -payload-sizes 1024\n\
                -pps 1000,3000,6000,10000\n\
                -duration 10\n\
                -max-inflight 100\n\
                -repeat 1\n\
                -output ./reports/nginx_rust_client_results/results.csv"@,
    }
}

/// The help of a subcommand.
pub fn help_text(command: Subcommand) -> (r: &'static str)
    ensures
        r@ == help_of(command),
{
    match command {
        Subcommand::Matrix => "transportbench-rust\n\n\
                Subcommands:\n\
                overload   raw QUIC overload-handling experiment\n\n\
                h2load-rate   Rust server with h2load target-PPS client\n\n\
                rust-pps   Rust client/server fixed-PPS benchmark\n\n\
                rust-pps-nginx   Rust client fixed-PPS benchmark against NGINX\n\n\
                Flags:\n\
                -payloads ../../SBI_PAYLOADS.json\n\
                -protocols h2,h3\n\
                -users 1,8,32,128\n\
                -messages 100,1000\n\
                -failures none,loss0.001,loss0.01,loss0.1,loss1,delay100ms,delay1s,delay100ms_loss1\n\
                -repeat 1\n\
                -netem\n\
                -output reports/transportbench_rust.csv",
        Subcommand::Overload => "transportbench-rust overload\n\n\
                Flags:\n\
                -requests 1000\n\
                -concurrency 50,100,200,500\n\
                -payload-sizes 1024,16384,65536,262144\n\
                -thresholds 20,50\n\
                -reject-percent 0\n\
                -modes app503,reset\n\
                -repeat 1\n\
                -output-dir ./reports/overload_results",
        Subcommand::H2LoadRate => "transportbench-rust h2load-rate\n\n\
                Starts the Rust server and drives it with h2load at target request rates.\n\n\
                Flags:\n\
                -protocols h2,h3\n\
                -payload-sizes 1024\n\
                -pps 1000,3000,6000,10000\n\
                -duration 10\n\
                -clients 1\n\
                -streams 100\n\
                -threads 4\n\
                -repeat 1\n\
                -h2load h2load\n\
                -output ./reports/h2load_rate_rust/results.csv\n\
                -log-dir ./reports/h2load_rate_rust/logs",
        Subcommand::RustPps => "transportbench-rust rust-pps\n\n\
                Uses the Rust client and Rust server with fixed target request rates.\n\n\
                Flags:\n\
                -protocols h2,h3\n\
                -payload-sizes 1024\n\
                -pps 1000,3000,6000,10000\n\
                -duration 10\n\
                -max-inflight 100\n\
                -repeat 1\n\
                -output ./reports/rust_pps_results/results.csv",
        Subcommand::RustPpsNginx => "transportbench-rust rust-pps-nginx\n\n\
                Uses the Rust fixed-PPS client against an external NGINX H2/H3 endpoint.\n\n\
                Flags:\n\
                -target https://localhost:8443/api\n\
                -nginx-container quic-nginx\n\
                -protocols h2,h3\n\
                -payload-sizes 1024\n\
                -pps 1000,3000,6000,10000\n\
                -duration 10\n\
                -max-inflight 100\n\
                -repeat 1\n\
                -output ./reports/nginx_rust_client_results/results.csv",
    }
}

} // verus!
