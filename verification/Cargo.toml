[package]
name = "asterctl"
version = "0.1.0"
edition = "2021"
publish = false

[dependencies]
regex = "*"
chrono = "*"
serialport = { version = "*", default-features = false }
image = "*"
imageproc = "*"
ab_glyph = "*"
serde = { version = "1", features = ["derive"] }
serde_json = "1"
serde_repr = "*"
anyhow = "1"
clap = { version = "4", features = ["derive"] }
notify = "*"
log = "*"
env_logger = "*"
sysinfo = "*"
tempfile = "*"
