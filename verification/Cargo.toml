[package]
name = "xfdl_analyzer"
version = "0.1.0"
edition = "2021"
publish = false

[dependencies]
regex = "1"
quick-xml = "0.37"
cafebabe = "*"
walkdir = "2"
rust_xlsxwriter = "*"
serde = { version = "1", features = ["derive"] }
