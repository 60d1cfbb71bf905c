[package]
name = "ipc_authority"
version = "0.1.0"
edition = "2021"
publish = false

[dependencies]
tauri = { version = "=2.11.6", default-features = false }
tauri-utils = { version = "=2.9.3" }
proptest = { version = "=1.12.0", default-features = false, features = ["std"] }
glob = "=0.3.4"
url = "=2.5.8"
