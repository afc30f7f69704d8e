[package]
name = "grevm"
version = "0.1.0"
edition = "2021"
publish = false

[dependencies]
ahash = "0.8"
alloy-evm = { version = "0.21", default-features = false, features = ["std"] }
dashmap = "6"
metrics = "0.24"
metrics-derive = "0.1"
parking_lot = "0.12"
revm = { version = "29", default-features = false, features = ["std"] }
revm-context = { version = "9", default-features = false, features = ["std"] }
revm-inspector = { version = "10", default-features = false, features = ["std"] }
revm-primitives = { version = "20.2", default-features = false, features = ["std"] }
tracing = "0.1"
