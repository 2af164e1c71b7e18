[package]
name = "wikicrawl"
version = "0.1.0"
edition = "2021"
publish = false

[dependencies]
regex = "1"
urlencoding = "2"
mysql = "*"
reqwest = { version = "0.12", default-features = false, features = ["rustls-tls"] }
tokio = { version = "1", features = ["rt-multi-thread", "macros", "time"] }
ctrlc = "3"
futures = "0.3"
