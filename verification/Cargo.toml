[package]
name = "scatter_send"
version = "0.1.0"
edition = "2021"
publish = false

[dependencies]
anyhow = "*"
clap = { version = "*", features = ["derive"] }
ps-base64 = "=0.1.0-8"
ps-hkey = "=0.1.0-39"
ps-mmap = "=0.1.0-15"
ps-str = "=0.1.0-5"
serde = { version = "*", features = ["derive"] }
serde_json = "*"
thiserror = "*"
tokio = { version = "*", features = ["fs", "macros", "rt-multi-thread", "signal", "time"] }
