[package]
name = "riskie"
version = "0.3.0"
edition = "2021"
publish = false

[dependencies]
zbus = { version = "5", features = ["tokio"] }
ksni = "0.3"
notify-rust = "4"
gettext-rs = { version = "0.7", features = ["gettext-system"] }
tokio = { version = "1", features = ["rt-multi-thread", "macros", "sync"] }
futures = "0.3"
async-stream = "0.3"
anyhow = "1"
tracing = "0.1"
tracing-subscriber = "0.3"
