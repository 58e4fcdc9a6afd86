[package]
name = "coreos_metadata"
version = "0.1.0"
edition = "2021"
publish = false

[dependencies]
reqwest = { version = "0.11", default-features = false, features = ["blocking"] }
structopt = "0.3"
users = "0.11"
