[package]
name = "mononoke"
version = "0.1.0"
edition = "2021"
publish = false

[dependencies]
bytes = "0.4"
futures = "0.1"
futures-cpupool = "0.1"
tokio-core = "0.1"
failure = "0.1"
error-chain = "0.11"
heapsize = "0.4"
slog = "2"
slog-term = "2"
clap = "2"
quickcheck = { version = "0.4", default-features = false }
