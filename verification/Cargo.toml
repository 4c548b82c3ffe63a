[package]
name = "clarity_repl"
version = "0.1.0"
edition = "2021"
publish = false

[dependencies]
regex = "1"
ansi_term = "0.12"
serde = { version = "1", features = ["derive"] }
serde_json = "1"
secp256k1 = { version = "0.20", features = ["recovery"] }
rustyline = "9"
pico-args = "0.4"
