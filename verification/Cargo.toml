[package]
name = "litime"
version = "0.1.0"
edition = "2021"
publish = false

[dependencies]
textwrap = { version = "0.16", default-features = false }
clap = "2"
chrono = "0.4"
rand = "0.8"

[dev-dependencies]
regex = "1"
