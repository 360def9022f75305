[package]
name = "linkcheck"
version = "0.1.0"
edition = "2021"
publish = false

[dependencies]
url = "=2.5.8"
http = "1"
reqwest = { version = "0.12", default-features = false, features = ["blocking"] }
html5ever = "0.27"
markup5ever_rcdom = "=0.3.0"
serde = { version = "1", features = ["derive"] }
serde_json = "1"
