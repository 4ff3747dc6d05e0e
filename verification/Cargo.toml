[package]
name = "irys_shadows"
version = "0.1.0"
edition = "2021"
publish = false

[dependencies]
alloy-eips = "=2.5.0"
alloy-primitives = { version = "=1.7.3", features = ["rlp", "getrandom"] }
alloy-rlp = "=0.3.16"
alloy-rpc-types-engine = "=2.5.0"
bytes = "=1.12.1"
clap = { version = "=4.6.7", features = ["derive"] }
eyre = "=0.6.14"
reth-codecs = "=0.8.2"
serde = { version = "=1.0.229", features = ["derive"] }
thiserror = "=2.0.21"
tokio = { version = "=1.54.1", features = ["sync"] }
tracing = "=0.1.44"
