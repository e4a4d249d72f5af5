[package]
name = "certflow"
version = "0.1.0"
edition = "2021"
publish = false

[dependencies]
async-compression = { version = "0.3", features = ["tokio", "gzip", "deflate", "brotli"] }
base64 = "=0.13.1"
bytes = "1"
fastrand = "=1.9.0"
hkdf = "=0.12.4"
hyper = { version = "=0.14.32", features = ["server", "tcp", "http1"] }
percent-encoding = "=2.3.2"
rcgen = "=0.10.0"
ring = "=0.16.20"
rustls-pemfile = "=1.0.4"
sha2 = "=0.10.9"
tokio = { version = "=1.54.1", features = ["fs", "io-util", "time", "rt-multi-thread", "net"] }
tokio-rustls = "=0.23.4"
tokio-stream = "0.1"
tokio-util = { version = "0.7", features = ["io"] }
