[package]
name = "ovim_core"
version = "0.1.0"
edition = "2021"
publish = false

[dependencies]
anyhow = "1"
arboard = { version = "=3.7.0", default-features = false }
base64 = "=0.22.1"
lsp-types = "=0.97.0"
regex = "=1.13.1"
ropey = { version = "=1.6.1", default-features = false, features = ["simd"] }
serde = { version = "1", features = ["derive"] }
serde_json = "=1.0.154"
sha2 = "=0.10.9"
tokio = { version = "1", features = ["rt", "rt-multi-thread", "sync", "time", "macros"] }
unicode-segmentation = "=1.13.3"
unicode-width = "=0.2.3"
