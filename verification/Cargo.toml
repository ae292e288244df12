[package]
name = "netmon"
version = "0.1.0"
edition = "2021"
publish = false

[dependencies]
anyhow = "1"
egui = "0.28"
egui_plot = "0.28"
env_logger = { version = "0.11", default-features = false }
libc = "0.2"
pcap = "2"
serde = { version = "1", features = ["derive"] }
thiserror = "1"
