[package]
name = "async-stomp"
version = "0.6.0"
edition = "2021"
publish = false

[dependencies]
anyhow = "1"
bytes = "1"
custom_debug_derive = "0.6"
futures = "0.3"
rustls = { version = "0.23", default-features = false, features = ["ring", "std", "tls12", "logging"] }
tokio = { version = "1", features = ["net", "io-util", "rt", "rt-multi-thread", "macros", "time", "sync"] }
tokio-rustls = { version = "0.26", default-features = false, features = ["ring", "tls12", "logging"] }
tokio-util = { version = "0.7", features = ["codec"] }
webpki-roots = "1"

[dev-dependencies]
winnow = "0.7"
