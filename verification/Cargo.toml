[package]
name = "site_discovery_flea"
version = "1.3.3"
edition = "2021"
publish = false

[dependencies]
clap = "2"
log = "0.4"
log4rs = { version = "1", default-features = false, features = ["console_appender", "file_appender", "pattern_encoder"] }
serde = { version = "1", features = ["derive"] }
serde_json = "1"
wildmatch = "*"
