[package]
name = "bulletin"
version = "0.1.0"
edition = "2021"
publish = false

[dependencies]
tera = "1"
serde_json = "1"
serde = { version = "1", features = ["derive"] }
reqwest = { version = "0.12", default-features = false, features = ["blocking", "rustls-tls"] }
structopt = "0.3"
