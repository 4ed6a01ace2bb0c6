[package]
name = "joystepper"
version = "0.1.0"
edition = "2021"
publish = false

[dependencies]
anyhow = "1"
clap = { version = "4", features = ["derive"] }
env_logger = "*"
evdev-rs = "*"
libc = "0.2"
log = "0.4"
rppal = "*"
serde = { version = "1", features = ["derive"] }
signal-hook = "0.3"
tokio = { version = "1", features = ["rt", "macros", "time", "sync", "net"] }
toml = "*"
