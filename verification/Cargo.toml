[package]
name = "options"
version = "0.1.0"
edition = "2021"
publish = false

[dependencies]
toml = { version = "=1.1.7", features = ["preserve_order"] }
serde_json = "=1.0.151"
serde_yaml = "=0.9.34"
fs-err = { version = "=3.3.2", features = ["expose_original_error"] }

[dev-dependencies]
tempfile = "=3.27.0"
regex = "=1.13.1"
