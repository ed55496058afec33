[package]
name = "freemkv_engine"
version = "1.6.0"
edition = "2021"
publish = false

[dependencies]
isolang = { version = "2", features = ["english_names", "lowercase_names"] }
tracing = "0.1"
