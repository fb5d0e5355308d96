[package]
name = "linesmith_core"
version = "0.1.0"
edition = "2021"
publish = false

[dependencies]
rhai = { version = "=1.27.0", default-features = false, features = ["std", "sync"] }
serde_json = "1"
terminal_size = "=0.4.4"
toml = "=0.8.23"
unicode-segmentation = "=1.13.3"
unicode-width = "=0.2.3"
