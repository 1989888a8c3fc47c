[package]
name = "rust_renderer"
version = "0.1.0"
edition = "2021"
publish = false

[dependencies]
clap = { version = "4", features = ["derive"] }
strum_macros = "0.27"
