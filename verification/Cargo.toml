[package]
name = "dots"
version = "0.1.0"
edition = "2021"
publish = false

[dependencies]
sha2 = "0.10"
dirs-next = "2.0"
clap = { version = "4", features = ["derive"] }
color-print = "0.3"
