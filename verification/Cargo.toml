[package]
name = "chunkah"
version = "0.1.0"
edition = "2021"
publish = false

[dependencies]
sha2 = "*"
flate2 = "*"
anyhow = "*"
clap = { version = "*", features = ["derive"] }
ctrlc = "*"
cap-std = "*"
cap-std-ext = "*"
camino = "*"

[dev-dependencies]
tar = "*"
