[package]
name = "powertest"
version = "0.1.0"
edition = "2021"
publish = false

[dependencies]
anyhow = "1"
clap = { version = "4", features = ["derive"] }
ctrlc = "3"
object = "0.30"
ppk2 = "*"
probe-rs = "0.18"
tracing = "0.1"
tracing-subscriber = "0.3"

[dev-dependencies]
object = { version = "0.30", features = ["write"] }
