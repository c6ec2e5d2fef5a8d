[package]
name = "ssz_codec"
version = "0.1.0"
edition = "2021"
publish = false

[dependencies]
bytes = "1"
snap = "1"
tokio-util = { version = "0.7", features = ["codec"] }
libfuzzer-sys = "0.4"
