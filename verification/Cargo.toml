[package]
name = "tezca"
version = "0.1.0"
edition = "2021"
publish = false

[dependencies]
rand = "0.9"
subtle = "2"
tokio = { version = "1", features = ["full"] }
axum = { version = "0.8", features = ["ws"] }
axum-server = { version = "0.7", features = ["tls-rustls-no-provider"] }
reqwest = { version = "0.12", default-features = false, features = ["rustls-tls-no-provider"] }
rusqlite = { version = "*", features = ["bundled"] }
rustls = { version = "0.23", default-features = false, features = ["ring", "std", "tls12"] }
tokio-rustls = { version = "0.26", default-features = false, features = ["ring"] }
tokio-tungstenite = "*"
rustls-platform-verifier = "*"
futures = "0.3"
hex = "0.4"
zeroize = "1"
thiserror = "2"
bytes = "1"
rustix = { version = "1", features = ["process", "mm"] }
ring = "0.17"
async-trait = "0.1"
uniffi = "*"
