[package]
name = "transportbench"
version = "0.1.0"
edition = "2021"
publish = false

[dependencies]
anyhow = "=1.0.104"
bytes = "=1.12.1"
futures-util = "=0.3.34"
h2 = "=0.4.20"
http = "=1.5.0"
libc = "=0.2.191"
mio = { version = "=1.2.4", features = ["os-poll", "net"] }
quiche = "=0.24.9"
rcgen = "=0.14.10"
serde_json = { version = "=1.0.154", features = ["raw_value"] }
tokio = { version = "=1.54.1", features = ["macros", "net", "rt-multi-thread", "time"] }
tokio-rustls = "=0.26.6"
