[package]
name = "thermal_watchdog"
version = "0.1.0"
edition = "2021"
publish = false

[dependencies]
clap = "2"
ctrlc = "3"
env_logger = "0.6"
futures = "0.1"
hyper = "0.12"
log = "0.4"
serde = "1"
serde_derive = "1"
systemd = "*"
tokio = "0.1"
toml = "0.5"
