[package]
name = "greentic_dw_authoring"
version = "0.1.0"
edition = "2021"
publish = false

[dependencies]
serde = { version = "1", features = ["derive"] }
serde_json = "1"
serde_yaml_bw = "2"
serde_cbor = "0.11"
blake3 = "1"
zip = "9"
thiserror = "2"
anyhow = "1"
semver = "1"
time = { version = "0.3", features = ["formatting"] }
greentic-types = "1"
greentic-extension-sdk-contract = "1"

[dev-dependencies]
tempfile = "3"
