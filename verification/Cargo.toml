[package]
name = "proc_lens"
version = "0.2.3"
edition = "2021"
publish = false

[dependencies]
clap = { version = "4", features = ["derive"] }
crossterm = "*"
ratatui = "*"
libc = "0.2"
nvml-wrapper = "*"
serde = { version = "1", features = ["derive"] }
serde_json = "1"
