[package]
name = "batg"
version = "0.1.0"
edition = "2021"
publish = false

[dependencies]
bumpalo = "=3.20.3"
clap = { version = "=4.5.61", features = ["derive"] }
crc32fast = "=1.5.4"
flatbuffers = "=25.12.19"
heck = "=0.5.0"
prettyplease = "=0.2.37"
proc-macro2 = "=1.0.107"
quote = "=1.0.47"
serde = { version = "=1.0.229", features = ["derive"] }
serde_json = "=1.0.154"
syn = { version = "=2.0.119", features = ["full"] }
thiserror = "=2.0.21"
zstd = "=0.13.4"
