[package]
name = "multistream"
version = "0.1.0"
edition = "2021"
publish = false

[dependencies]
varint = "*"
bytes = "0.4"
futures = "0.1"
tokio-io = "0.1"
slog = "2"
