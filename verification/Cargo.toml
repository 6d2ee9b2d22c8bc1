[package]
name = "hns_browser"
version = "0.2.4"
edition = "2021"
publish = false

[dependencies]
bytes = "1"
h2 = "0.4"
h3 = "0.0.8"
h3-quinn = "0.0.10"
http = "1"
jni = "0.21"
quinn = { version = "0.11", default-features = false, features = ["runtime-tokio", "rustls-ring"] }
rcgen = "0.14"
rusqlite = { version = "*", features = ["bundled"] }
rustls = { version = "0.23", default-features = false, features = ["ring", "std", "tls12"] }
sha2 = "0.10"
sha3 = "0.10"
thiserror = "2"
tokio = { version = "1", features = ["net", "rt", "time", "io-util"] }
tokio-rustls = { version = "0.26", default-features = false, features = ["ring", "tls12"] }
webpki-roots = "1"
