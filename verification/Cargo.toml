[package]
name = "c2pa_validate"
version = "0.1.0"
edition = "2021"
publish = false

[dependencies]
sha2 = "0.10"
time = { version = "0.3", features = ["parsing", "formatting"] }
serde = { version = "1", features = ["derive"] }
serde_json = "1"
thiserror = "2"

[dev-dependencies]
hex = "0.4"
