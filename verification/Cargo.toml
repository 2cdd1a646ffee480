[package]
name = "doh-proxy"
version = "0.1.0"
edition = "2021"
publish = false

[dependencies]
anyhow = "1"
arc-swap = "1"
base64 = "0.22"
byteorder = "1"
bytes = "1"
clap = { version = "4", default-features = false, features = ["std", "cargo", "string", "help", "usage", "error-context"] }
dnsstamps = "0.1"
futures = { version = "0.3", default-features = false, features = ["std", "async-await"] }
http-body-util = "0.1"
hyper = { version = "1", features = ["client", "server", "http1", "http2"] }
hyper-rustls = { version = "0.27", default-features = false, features = ["ring", "native-tokio", "http1", "http2", "tls12"] }
hyper-util = { version = "0.1", features = ["client", "client-legacy", "server", "server-auto", "http1", "http2", "tokio"] }
notify-debouncer-full = { version = "*", default-features = false }
rand = { version = "0.8", default-features = false, features = ["std", "std_rng"] }
rustls-pemfile = "2"
rustls-platform-verifier = "*"
serde_json = "1"
tokio = { version = "1", features = ["net", "rt-multi-thread", "time", "sync", "io-util", "macros"] }
tokio-quiche = "*"
tokio-rustls = { version = "0.26", default-features = false, features = ["ring", "tls12", "logging"] }
url = "2"
urlencoding = "2"
