[package]
name = "metaproxy"
version = "0.1.0"
edition = "2021"
publish = false

[dependencies]
actix-web = { version = "4", default-features = false, features = ["macros"] }
base64 = "0.22"
clap = { version = "4", features = ["derive"] }
httparse = "1"
log = "0.4"
serde = { version = "1", features = ["derive"] }
serde_json = "1"
tokio = { version = "1", features = ["full"] }
url = "2"
warp = { version = "0.3", default-features = false }
