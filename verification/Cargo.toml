[package]
name = "chipa_license_validator"
version = "0.1.0"
edition = "2021"
publish = false

[dependencies]
bytes = { version = "=1.12.1", features = ["serde"] }
reqwest-wasm = "=0.11.16"
rmp-serde = "=1.3.1"
serde = { version = "=1.0.229", features = ["derive"] }
serde_json = "=1.0.151"
uuid = { version = "=1.27.0", features = ["v4", "serde"] }

[dev-dependencies]
