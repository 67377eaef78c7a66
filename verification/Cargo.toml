[package]
name = "bench-harness"
version = "0.1.0"
edition = "2021"
publish = false

[dependencies]
anyhow = "1"
crossbeam-channel = "0.5"
ctrlc = "3"
indexmap = "=2.14.2"
once_cell = "1"
parking_lot = "0.12"
pico-args = { version = "=0.5.0", features = ["eq-separator"] }
regex = "=1.13.1"
serde = { version = "1", features = ["derive"] }
tar = "=0.4.46"
time = { version = "=0.3.55", features = ["parsing"] }
toml = "0.8"
tracing = "0.1"
tracing-subscriber = { version = "0.3", features = ["env-filter"] }
xshell = "=0.2.7"
