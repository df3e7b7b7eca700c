[package]
name = "quickie"
version = "0.1.0"
edition = "2021"
publish = false

[dependencies]
http = "1"
rustls-pki-types = "1"
tokio = { version = "1", default-features = false, features = ["net", "rt-multi-thread", "time"] }
hyper = { version = "1", features = ["client", "http1", "http2"] }
hyper-util = { version = "0.1", default-features = false, features = ["tokio"] }
http-body-util = "0.1"
rustls = { version = "0.23", default-features = false, features = ["ring", "logging", "std", "tls12"] }
tokio-rustls = { version = "0.26", default-features = false, features = ["ring", "logging", "tls12"] }
webpki-roots = "0.26"

[dev-dependencies]
base64 = "0.22"
