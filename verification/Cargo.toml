[package]
name = "schema_scaffold"
version = "0.1.0"
edition = "2021"
publish = false

[dependencies]
tera = "*"
serde = { version = "*", features = ["derive"] }
serde_yaml = "*"
exitfailure = "*"
