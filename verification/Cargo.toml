[package]
name = "office_oxide"
version = "0.1.0"
edition = "2021"
publish = false

[dependencies]
encoding_rs = "0.8"
log = "0.4"
quick-xml = "*"
serde = { version = "1", features = ["derive"] }
thiserror = "*"

[dev-dependencies]
