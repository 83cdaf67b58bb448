[package]
name = "wild_macho"
version = "0.1.0"
edition = "2021"
publish = false

[dependencies]
object = { version = "0.37", default-features = false, features = ["read_core", "macho", "std"] }
sha2 = "0.10"
blake3 = "1"
serde = { version = "1", features = ["derive"] }
serde_yaml = "0.9"
