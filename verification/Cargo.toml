[package]
name = "ferrules"
version = "0.1.0"
edition = "2021"
publish = false

[dependencies]
anyhow = "=1.0.104"
clap = { version = "=4.6.7", features = ["derive", "env"] }
colored = "=2.2.0"
image = { version = "=0.25.10", default-features = false, features = ["png", "jpeg"] }
indicatif = "=0.17.11"
memmap2 = "=0.9.12"
ort = { version = "=2.0.0-rc.9", default-features = false, features = ["load-dynamic"] }
ort-sys = { version = "=2.0.0-rc.9", default-features = false }
pdfium-render = "=0.8.37"
serde = { version = "=1.0.229", features = ["derive"] }
serde_json = "=1.0.154"
thiserror = "=1.0.69"
tokio = { version = "=1.54.1", features = ["full"] }
tracing = "=0.1.44"
uuid = { version = "=1.29.0", features = ["v4"] }
