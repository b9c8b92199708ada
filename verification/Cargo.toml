[package]
name = "market-capture"
version = "0.1.0"
edition = "2021"
publish = false

[dependencies]
arrow-array = "55"
arrow-schema = "55"
chrono = { version = "0.4", default-features = false, features = ["alloc", "std"] }
crc32c = "0.6"
crossbeam-channel = "0.5"
dotenvy = "0.15"
futures-util = "0.3"
parquet = { version = "55", default-features = false, features = ["arrow"] }
postcard = { version = "1", features = ["alloc", "use-std"] }
reqwest = { version = "0.12", default-features = false, features = ["json", "rustls-tls"] }
rustls = { version = "0.23", default-features = false, features = ["ring", "std", "tls12"] }
serde = { version = "1", features = ["derive"] }
serde_json = "1"
sha2 = "0.10"
tokio = { version = "1", features = ["macros", "rt-multi-thread", "signal", "sync", "time", "net"] }
tokio-tungstenite = { version = "0.26", features = ["rustls-tls-webpki-roots"] }
uuid = { version = "1", features = ["serde", "v4"] }
