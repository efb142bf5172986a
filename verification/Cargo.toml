[package]
name = "trirecover"
version = "0.1.0"
edition = "2021"
publish = false

[dependencies]
crc = "=3.4.0"
uuid = { version = "=1.29.0", features = ["v4"] }
chrono = "=0.4.45"
memmap2 = "=0.9.12"
anyhow = "=1.0.104"
libc = "=0.2.191"
serde = { version = "=1.0.229", features = ["derive"] }
serde_json = "=1.0.154"
tokio = { version = "=1.54.1", features = ["rt-multi-thread", "macros", "signal", "sync", "time"] }
