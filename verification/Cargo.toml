[package]
name = "rmstream"
version = "0.1.0"
edition = "2021"
publish = false

[dependencies]
anyhow = "1"
evdev = "*"
flate2 = "1"
futures = "0.3"
libc = "0.2"
png = "*"
sysinfo = "*"
tokio = { version = "1", features = ["full"] }
warp = "0.3"
