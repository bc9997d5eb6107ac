[package]
name = "outlint-core"
version = "0.1.0"
edition = "2021"
publish = false

[dependencies]
casefold = "=0.1.0"
jsonschema = { version = "=0.60.2", default-features = false }
num-bigint = "=0.5.1"
regex = "=1.13.1"
saphyr-parser = "=0.0.12"
serde = { version = "=1.0.229", features = ["derive"] }
serde_json = { version = "=1.0.154", features = ["arbitrary_precision"] }
unicode-normalization = "=0.1.26"
