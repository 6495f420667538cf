[package]
name = "flashblocks_ssz"
version = "0.1.0"
edition = "2021"
publish = false

[dependencies]
alloy-primitives = { version = "*", features = ["serde"] }
alloy-rpc-types-engine = { version = "*", features = ["serde"] }
alloy-rpc-types-eth = { version = "*", features = ["serde"] }
alloy-serde = "*"
op-alloy-consensus = { version = "*", features = ["serde"] }
ethereum_ssz = "*"
serde = { version = "1", features = ["derive"] }
serde_json = "1"
brotli = "*"
clap = { version = "4", features = ["derive"] }
flate2 = "1"
futures-util = "0.3"
tokio = { version = "1", features = ["macros", "rt-multi-thread", "time"] }
tokio-tungstenite = { version = "*", features = ["rustls-tls-webpki-roots"] }
