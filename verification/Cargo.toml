[package]
name = "runarchive"
version = "0.1.0"
edition = "2021"
publish = false

[dependencies]
sha2 = "=0.10.9"
hex = "=0.4.3"
url = "=2.5.8"
tokio = { version = "=1.54.1", features = ["full"] }
opendal = { version = "=0.59.5", features = ["blocking", "services-fs", "services-http"] }
flate2 = "=1.1.10"
async-compression = { version = "=0.4.52", features = ["tokio", "futures-io", "deflate"] }
tokio-util = { version = "=0.7.20", features = ["io"] }
bytes = "=1.12.1"
futures = "=0.3.34"
clap = { version = "=4.6.7", features = ["derive"] }
indicatif = "=0.17.11"
bincode = "=1.3.3"
serde = { version = "=1.0.229", features = ["derive"] }
zlib-rs = { version = "=0.6.8", features = ["__internal-api"] }
reqwest = { version = "=0.12.28", default-features = false, features = ["rustls-tls"] }
async-trait = "=0.1.92"
pin-project-lite = "=0.2.17"
wasm-bindgen = "0.2"
wasm-bindgen-futures = "0.4"
js-sys = "0.3"
web-sys = { version = "0.3", features = ["Window", "Navigator", "StorageManager"] }
wstd = "*"
