[package]
name = "ros2probe"
version = "0.1.0"
edition = "2021"
publish = false

[dependencies]
anyhow = "1"
arc-swap = "1"
aya = "0.13"
base64 = "=0.22.1"
bytes = "=1.12.1"
chrono = "=0.4.45"
clap = { version = "4", features = ["derive"] }
libc = "0.2"
log = "0.4"
mcap = "*"
netring = "<0.4"
serde = { version = "1", features = ["derive"] }
serde_json = "1"
tokio = { version = "1", features = ["macros", "rt-multi-thread", "signal", "time"] }
