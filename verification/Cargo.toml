[package]
name = "ser_file"
version = "0.1.0"
edition = "2021"
publish = false

[dependencies]
chrono = { version = "=0.4.45", default-features = false, features = ["std"] }
image = { version = "=0.25.10", default-features = false, features = ["png", "jpeg", "tiff"] }
clap = { version = "=4.6.7", features = ["derive"] }
glob = "=0.3.4"

[dev-dependencies]
binrw = "0.15"
