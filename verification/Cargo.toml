[package]
name = "openrdc_host"
version = "0.1.0"
edition = "2021"
publish = false

[dependencies]
serde_json = "1"
sha2 = "0.10"
uuid = { version = "1", features = ["v4"] }
base64 = "0.22"
image = { version = "0.25", default-features = false, features = ["png"] }
chrono = "0.4"
axum = "0.7"
tokio = { version = "1", features = ["full"] }
tower-http = { version = "0.5", features = ["limit"] }
enigo = { version = "0.2", default-features = false, features = ["x11rb"] }
x11rb = { version = "0.13", features = ["randr"] }
libc = "0.2"
