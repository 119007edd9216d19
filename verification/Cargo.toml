[package]
name = "curl_lite"
version = "0.1.0"
edition = "2021"
publish = false

[dependencies]
anyhow = "*"
clap = { version = "*", features = ["derive"] }
colored = "*"
mime = "*"
reqwest = { version = "*", default-features = false, features = ["json"] }
serde_json = { version = "*", features = ["preserve_order"] }
syntect = { version = "*", default-features = false, features = ["default-fancy"] }
tokio = { version = "*", features = ["rt-multi-thread", "macros"] }
url = "*"
