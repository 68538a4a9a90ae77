[package]
name = "alley"
version = "0.1.0"
edition = "2021"
publish = false

[dependencies]
sha1 = "0.10"
serde = { version = "1", features = ["derive"] }
serde_json = "1"
tokio = { version = "1", features = ["net", "sync", "rt", "rt-multi-thread", "io-util", "fs", "time", "macros"] }
hostname = "0.4"
os_info = "3"
tauri = { version = "2", default-features = false }
