[package]
name = "spoolease"
version = "0.6.1"
edition = "2021"
publish = false

[dependencies]
hashbrown = "0.15"
hex = "0.4"
semver = "1"
serde = { version = "1", features = ["derive"] }
serde_json = "1"
serde-csv-core = "*"
log = "0.4"
embedded-io-async = "*"
embassy-sync = "*"
embassy-time = "*"
