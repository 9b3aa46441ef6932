[package]
name = "hero_proxy"
version = "0.1.0"
edition = "2021"
publish = false

[dependencies]
percent-encoding = "2"
urlencoding = "2"
image = "0.24"
webp = "0.2"
hyper = { version = "0.14", features = ["full"] }
tokio = { version = "1", features = ["full"] }
reqwest = { version = "0.11", default-features = false }
ureq = { version = "2", default-features = false }
clap = { version = "4", features = ["derive"] }
jpegxl-rs = "*"
