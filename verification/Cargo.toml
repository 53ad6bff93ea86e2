[package]
name = "flakesim"
version = "0.1.0"
edition = "2021"
publish = false

[dependencies]
anyhow = "1"
clap = { version = "4", features = ["derive"] }
gif = "*"
png = "*"
rayon = "1"
serde = { version = "1", features = ["derive"] }
toml = "*"
wasm-bindgen = "0.2"
