[package]
name = "blob_integrity"
version = "0.1.0"
edition = "2021"
publish = false

[dependencies]
sha2 = "0.10"
hex = "0.4"
cid = "0.11"
multihash = "0.19"
serde = { version = "1", features = ["derive"] }
serde_json = "1"
clap = { version = "4", features = ["derive"] }
kamadak-exif = "0.5"
