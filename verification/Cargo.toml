[package]
name = "chronacle"
version = "0.1.0"
edition = "2021"
publish = false

[dependencies]
regex = "1"
unicode-segmentation = "1"
serde = { version = "1", features = ["derive"] }
serde_json = "1"
thiserror = "2"
uuid = { version = "1", features = ["v4"] }
tokio = { version = "1", features = ["rt", "macros", "sync"] }
async-trait = "0.1"
pdfium-render = { version = "0.8", default-features = false, features = ["thread_safe", "pdfium_latest"] }
