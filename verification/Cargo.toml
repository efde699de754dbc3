[package]
name = "verb_memorizer"
version = "0.1.0"
edition = "2021"
publish = false

[dependencies]
regex = "1"
clap = "4"
cursive = "0.21"
rand = "0.8"
serde = { version = "1", features = ["derive"] }
serde_json = "1"
