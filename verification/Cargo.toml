[package]
name = "casc_storage"
version = "0.1.0"
edition = "2021"
publish = false

[dependencies]
flate2 = "*"
md5 = "*"
salsa20 = "*"
reqwest = { version = "*", default-features = false, features = ["blocking"] }
serde = { version = "*", features = ["derive"] }
serde_json = "*"

[dev-dependencies]
hex = "*"
