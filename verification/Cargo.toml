[package]
name = "xcstrings_converter"
version = "0.1.0"
edition = "2021"
publish = false

[dependencies]
icu-messageformat-parser = "*"
rayon = "*"
serde = { version = "*", features = ["derive"] }
serde_json = "*"
linked-hash-map = { version = "*", features = ["serde_impl"] }
clap = { version = "*", features = ["derive"] }
