[package]
name = "arp_spoof_detector"
version = "0.1.0"
edition = "2021"
publish = false

[dependencies]
clap = { version = "4", features = ["derive"] }
encoding_rs = "0.8"
serde_json = { version = "1", features = ["preserve_order"] }
