[package]
name = "phonecam"
version = "0.1.0"
edition = "2021"
publish = false

[dependencies]
bincode = { version = "2", features = ["serde"] }
bytes = "1"
crossbeam-channel = "0.5"
libc = "0.2"
local-ip-address = "*"
log = "0.4"
mdns-sd = "*"
openh264 = "*"
qrcode = { version = "*", default-features = false, features = ["svg"] }
rust_h265 = "*"
serde = { version = "1", features = ["derive"] }
serde_json = "1"
thiserror = "*"
tokio = { version = "1", features = ["rt-multi-thread", "net", "sync", "time", "macros", "io-util", "process"] }
v4l = "*"
