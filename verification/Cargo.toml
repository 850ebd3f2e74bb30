[package]
name = "groovebox"
version = "0.1.0"
edition = "2021"
publish = false

[dependencies]
midly = "0.5"
serde = { version = "1", features = ["derive"] }
serde_json = "1"
threadpool = "1.8"
ctrlc = "3"
rodio = { version = "0.17", default-features = false, features = ["wav"] }
midir = "0.9"
