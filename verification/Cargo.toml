[package]
name = "yapperd"
version = "1.0.1"
edition = "2021"
publish = false

[dependencies]
anyhow = "1"
clap = { version = "4", default-features = false, features = ["derive", "std", "help", "usage", "error-context"] }
futures-util = { version = "0.3", default-features = false, features = ["alloc"] }
imagesize = "0.14"
libc = "0.2"
matrix-sdk = { version = "0.18", default-features = false, features = ["markdown"] }
matrix-sdk-base = { version = "0.18", default-features = false }
mime = "0.3"
mime2ext = "0.1"
mime_guess = { version = "2", default-features = false }
rand = "0.10"
serde = { version = "1", features = ["derive"] }
serde_json = "1"
tokio = { version = "1", features = ["fs", "io-util", "macros", "net", "process", "rt-multi-thread", "signal", "sync", "time"] }
tracing = "0.1"
tracing-subscriber = { version = "0.3", default-features = false, features = ["fmt", "ansi"] }
url = "2"
