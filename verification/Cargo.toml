[package]
name = "csv2xml"
version = "0.1.0"
edition = "2021"
publish = false

[dependencies]
anyhow = "=1.0.104"
chardetng = "=0.1.17"
clap = { version = "=4.6.7", features = ["derive"] }
log = "=0.4.34"
quick-xml = "=0.42.0"
