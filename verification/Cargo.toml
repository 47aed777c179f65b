[package]
name = "release_index"
version = "0.1.0"
edition = "2021"
publish = false

[dependencies]
hex = "*"
sha1 = "*"
sha2 = "*"
semver = "*"
serde = { version = "*", features = ["derive"] }
serde_json = "*"
os_info = "*"
indicatif = "*"
thiserror = "*"
reqwest = { version = "*", default-features = false, features = ["blocking"] }
