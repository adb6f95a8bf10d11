[package]
name = "userspace"
version = "0.1.0"
edition = "2021"
publish = false

[dependencies]
xxhash-rust = { version = "=0.8.19", features = ["xxh3"] }
libc = "=0.2.191"
tokio = { version = "=1.54.1", features = ["rt", "rt-multi-thread", "macros", "sync", "time", "fs", "net", "io-util"] }
serde = { version = "=1.0.229", features = ["derive"] }
serde_json = "=1.0.154"
anyhow = "=1.0.104"
chrono = "=0.4.45"
memmap2 = "=0.9.12"
parking_lot = "=0.12.5"
futures = "=0.3.34"
bytemuck = "=1.25.2"
tracing = "=0.1.44"
urlencoding = "=2.1.3"
mime_guess = "=2.0.5"
rand = "=0.8.8"
reqwest = { version = "0.12", default-features = false, features = ["json"] }
notify = { version = "6", default-features = false }
