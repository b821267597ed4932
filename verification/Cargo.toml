[package]
name = "with_daemon"
version = "0.2.0"
edition = "2021"
publish = false

[dependencies]
clap = { version = "4", features = ["derive"] }
daemonize = "0.5"
env_logger = "0.11"
fork = "0.2"
futures = "0.3"
itertools = "0.13"
log = "0.4"
procfs = "0.17"
thiserror = "1"
tokio = { version = "1", features = ["full"] }
