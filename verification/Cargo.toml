[package]
name = "portfolio"
version = "0.1.0"
edition = "2021"
publish = false

[dependencies]
markdown = "1.0.0-alpha.16"
yaml-rust = "0.4"
serde = { version = "1", features = ["derive"] }
serde_json = "1"
toml = "0.8"
handlebars = { version = "4", features = ["dir_source"] }
actix-web = "3"
actix-files = "0.5"
notify = "4"
rsass = "0.23"
log = "0.4"
simple_logger = "4"
lazy_static = "1"
