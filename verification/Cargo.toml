[package]
name = "tilepack"
version = "0.1.0"
edition = "2021"
publish = false

[dependencies]
clap = { version = "4", features = ["derive"] }
clap-num = "1"
image = "0.24"
itertools = "0.12"
