[package]
name = "rio_sessions"
version = "0.1.0"
edition = "2021"
publish = false

[dependencies]
libc = "0.2"
onig = { version = "6", default-features = false }
rustc-hash = "2"
serde = { version = "1", features = ["derive"] }
serde_json = "1"
smallvec = "1"
tracing = "0.1"
url = "2"
