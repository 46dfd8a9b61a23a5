[package]
name = "minibit"
version = "0.1.0"
edition = "2021"
publish = false

[dependencies]
sha1 = "*"
rand = "*"
tokio = { version = "*", features = ["net", "io-util", "rt-multi-thread", "macros", "time"] }
reqwest = { version = "*", default-features = false }
clap = { version = "*", features = ["derive"] }
anyhow = "*"
url = "*"
