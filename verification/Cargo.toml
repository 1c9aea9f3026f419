[package]
name = "opengemini_engine"
version = "0.1.0"
edition = "2021"
publish = false

[dependencies]
chrono = { version = "0.4", default-features = false, features = ["clock", "std"] }
crc32fast = "1"
roaring = "0.10"
prost = "0.12"
serde = { version = "1", features = ["derive"] }
serde_json = "1"
thiserror = "1"
bincode = "1"
byteorder = "1"
parking_lot = "0.12"
tracing = "0.1"
tracing-subscriber = "0.3"
