[package]
name = "raf"
version = "0.1.0"
edition = "2021"
publish = false

[dependencies]
anyhow = "*"
clap = { version = "*", features = ["derive"] }
docx-rs = "*"
encoding = "*"
lopdf = "*"
rand = "*"
rayon = "*"
regex = "*"
serde = { version = "*", features = ["derive"] }
serde_json = "*"
text-colorizer = "*"
