//! A benchmark of HTTP/2 over TLS against HTTP/3 over QUIC, and an experiment on how an
//! overloaded QUIC server turns requests away: everything that can be decided without
//! a socket, a clock or a file.
//!
//! Command lines: `args`, `error`, `config`, `overload_config`, `pps_config`,
//! `nginx_config`, `h2load_config`, `help`, with `protocol`, `mode`, `netem`, `target`
//! and `percent` for the values of flags.
//! Runs: `odometer` and `plan` for their order, `corpus` for what they send.
//! Clients and servers: `serial`, `fixed_rate`, `http`, `h3`, `quic`, `streams`,
//! `overload_client`, `overload_server`.
//! Reports: `latency`, `resources`, `csv`, `overload_report`, `h2load`.
//! Ground work: `text`, `number`, `binary64`.
pub mod args;
pub mod binary64;
pub mod config;
pub mod corpus;
pub mod csv;
pub mod error;
pub mod fixed_rate;
pub mod h2load;
pub mod h2load_config;
pub mod h3;
pub mod help;
pub mod http;
pub mod latency;
pub mod mode;
pub mod netem;
pub mod nginx_config;
pub mod number;
pub mod odometer;
pub mod overload_client;
pub mod overload_config;
pub mod overload_report;
pub mod overload_server;
pub mod percent;
pub mod plan;
pub mod pps_config;
pub mod protocol;
pub mod quic;
pub mod resources;
pub mod serial;
pub mod streams;
pub mod target;
pub mod text;
