[package]
name = "seamless"
version = "0.1.0"
edition = "2021"
publish = false

[dependencies]
priority-queue = "*"
etherparse = "*"
tokio = { version = "1", features = ["full"] }
anyhow = "1"
serde = { version = "1", features = ["derive"] }
serde_derive = "1"
serde_yaml = "0.9"
serde_with = "3"
clap = { version = "4", features = ["derive"] }
chrono = "0.4"
duration-string = "*"
futures = "0.3"
influxdb = "*"
influxdb2 = "*"
itertools = "*"
lz4_flex = "*"
nix = { version = "*", features = ["user"] }
tokio-tun = "*"
tracing = "0.1"
tracing-subscriber = "0.3"
zeromq = "*"
