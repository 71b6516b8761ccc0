[package]
name = "quadcontrol"
version = "0.1.0"
edition = "2021"
publish = false

[dependencies]
getrandom = "0.3"
qrcode = { version = "0.14", default-features = false }
serde = { version = "1", features = ["derive"] }
serde_json = "1"
ureq = { version = "2", default-features = false, features = ["json"] }
chrono = "0.4"
dirs = "6"
libc = "0.2"

[dev-dependencies]
rqrr = "0.9"
