[package]
name = "file_watcher"
version = "0.1.0"
edition = "2021"
publish = false

[dependencies]
anyhow = "1"
notify-debouncer-full = "*"
regex = "1"
serde = { version = "1", features = ["derive"] }
serde_yaml = "0.9"
shlex = "1"
suppaftp = { version = "*", features = ["native-tls"] }
