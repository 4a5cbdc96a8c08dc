[package]
name = "hyperblow"
version = "0.1.0"
edition = "2021"
publish = false

[dependencies]
bytes = "1"
crossterm = "0.25"
reqwest = { version = "0.11", default-features = false }
sha1 = "0.10"
tui = "0.19"

[dev-dependencies]
serde_bencode = "0.2"
