[package]
name = "spdx_toolkit"
version = "0.1.0"
edition = "2021"
publish = false

[dependencies]
petgraph = "0.6"
reqwest = { version = "0.11", features = ["blocking"] }
serde = { version = "1", features = ["derive"] }
serde_json = "1"
spdx-rs = "0.5"
thiserror = "1"
