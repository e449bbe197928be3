[package]
name = "tezweb"
version = "0.1.0"
edition = "2021"
publish = false

[dependencies]
base64 = "0.22"
bytes = "1"
httparse = "1"
flate2 = "1"
brotli = "*"
num_cpus = "1"
tokio = { version = "1", features = ["sync", "time", "rt", "rt-multi-thread", "macros", "net", "io-util", "signal"] }
serde = { version = "1", features = ["derive"] }
serde_json = "1"
dashmap = "6"
socket2 = { version = "0.5", features = ["all"] }
libc = "0.2"
notify = "*"
h2 = "0.3"
hyper = { version = "0.14", features = ["full"] }
http = "1"
async-graphql = "7"
rustls = { version = "0.23", default-features = false, features = ["ring", "std", "logging", "tls12"] }
tokio-rustls = { version = "0.26", default-features = false, features = ["ring", "logging", "tls12"] }
rustls-pemfile = "2"
quinn = "0.11"
h3 = "*"
h3-quinn = "*"
monoio = "0.2"
