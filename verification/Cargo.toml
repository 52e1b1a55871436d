[package]
name = "qtarget"
version = "0.1.0"
edition = "2021"
publish = false

[dependencies]
fancy-regex = "*"
isolang = "*"
serde = { version = "*", features = ["derive"] }
serde_json = "*"
clap = { version = "*", features = ["derive"] }
which = "*"
lava_torrent = "*"
ssimulacra2 = "*"

[dev-dependencies]
polyfit-rs = "*"
polynomial = "*"
statrs = "*"
