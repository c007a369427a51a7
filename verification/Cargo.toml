[package]
name = "adsb_demod"
version = "0.1.0"
edition = "2021"
publish = false

[dependencies]
anyhow = "=1.0.104"
chrono = { version = "=0.4.45", default-features = false, features = ["alloc", "std"] }
tokio = { version = "=1.54.1", features = ["net", "sync", "rt", "rt-multi-thread", "io-util", "macros", "time"] }
tracing = "=0.1.44"
async-trait = "=0.1.92"
futures-util = { version = "=0.3.34", features = ["sink"] }
tokio-tungstenite = "=0.30.0"
serde = { version = "=1.0.229", features = ["derive"] }
serde_json = "=1.0.154"
clap = { version = "=4.6.7", features = ["derive"] }
adsb_deku = "=0.7.1"
