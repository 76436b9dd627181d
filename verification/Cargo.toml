[package]
name = "script_generator"
version = "0.1.0"
edition = "2021"
publish = false

[dependencies]
reqwest = { version = "0.12", default-features = false, features = ["json", "rustls-tls"] }
tokio = { version = "1", default-features = false, features = ["rt-multi-thread", "macros"] }
dotenv = "0.15"
