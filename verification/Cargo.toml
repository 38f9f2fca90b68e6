[package]
name = "xt_core"
version = "0.1.0"
edition = "2021"
publish = false

[dependencies]
md-5 = "0.10"
sha2 = "0.10"
flate2 = "1"
byteorder = "1"
encoding_rs = "0.8"
regex = "1"
lz4 = "1"
serde = { version = "1", features = ["derive"] }
serde_json = "1"
bincode = "1"
anyhow = "1"
thiserror = "1"
log = "0.4"
async-trait = "0.1"
