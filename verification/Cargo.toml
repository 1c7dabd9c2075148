[package]
name = "anemoia"
version = "0.1.0"
edition = "2021"
publish = false

[dependencies]
anyhow = "1"
base64 = "0.22"
chrono = "0.4"
serde = { version = "1", features = ["derive"] }
serde_json = "1"
ureq = { version = "2", features = ["json"] }
urlencoding = "2"
sysinfo = "0.33"
proc-maps = "0.4"
libc = "0.2"
log = "0.4"
simplelog = "0.12"
libloading = "0.8"
jni = "0.21"
image = { version = "0.25", default-features = false, features = ["png", "jpeg", "gif", "webp"] }
