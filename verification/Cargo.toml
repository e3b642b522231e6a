[package]
name = "crunchy_cli_core"
version = "0.1.0"
edition = "2021"
publish = false

[dependencies]
anyhow = "=1.0.104"
crunchyroll-rs = "=0.5.1"
indicatif = "=0.17.11"
log = "=0.4.34"
num_cpus = "=1.17.0"
rsubs-lib = "=0.1.10"
tokio = { version = "=1.54.1", features = ["rt-multi-thread", "macros", "time"] }
