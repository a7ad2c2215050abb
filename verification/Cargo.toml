[package]
name = "srt-bench"
version = "0.1.0"
edition = "2021"
publish = false

[dependencies]
bytes = "1"
getrandom = "0.3"
libc = "0.2"
shiguredo_srt = "=2026.1.0-canary.1"
tracing-subscriber = { version = "0.3", features = ["env-filter"] }
