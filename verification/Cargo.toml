[package]
name = "hft_stealth"
version = "0.1.0"
edition = "2021"
publish = false

[dependencies]
fastrand = "2"
dashmap = "5"
parking_lot = "0.12"
once_cell = "1"
serde = { version = "1", features = ["derive"] }
serde_json = "1"
thiserror = "1"
clap = { version = "4", features = ["derive"] }
tokio = { version = "1", features = ["rt-multi-thread", "macros", "time", "sync", "signal"] }
tracing = "0.1"
tracing-subscriber = "0.3"
rustfft = "6"
num-complex = "0.4"
rand = "0.8"
crossbeam-channel = "0.5"
bytes = "1"
memmap2 = "0.9"
static_assertions = "1"
ringbuf = "0.3"
ndarray = "0.15"
nalgebra = "0.32"
mimalloc = { version = "0.1", default-features = false }
