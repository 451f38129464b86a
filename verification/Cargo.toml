[package]
name = "desktopinator"
version = "0.1.0"
edition = "2021"

[dependencies]
anyhow = "=1.0.104"
async-trait = "=0.1.92"
bytes = "=1.12.1"
extism = { version = "=1.12.0", default-features = false }
fontdue = "=0.9.5"
image = { version = "=0.25.10", default-features = false, features = ["png", "bmp"] }
ironrdp-cliprdr = "=0.5.0"
ironrdp-core = "=0.1.5"
ironrdp-displaycontrol = "=0.5.0"
ironrdp-dvc = "=0.5.0"
ironrdp-pdu = "=0.7.0"
ironrdp-rdpsnd = "=0.7.0"
mlua = { version = "=0.10.5", features = ["lua54", "vendored"] }
openh264 = "=0.6.6"
rcgen = "=0.14.10"
serde = { version = "=1.0.229", features = ["derive"] }
serde_json = "=1.0.154"
tokio = { version = "=1.54.1", features = ["rt-multi-thread", "sync", "net", "macros"] }
toml = "=0.8.23"
tracing = "=0.1.44"
tracing-subscriber = { version = "=0.3.23", features = ["env-filter"] }
xcursor = "=0.3.11"
