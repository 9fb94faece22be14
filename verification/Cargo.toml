[package]
name = "texcreate_compiler"
version = "0.1.0"
edition = "2021"
publish = false

[dependencies]
tokio = { version = "1", features = ["fs", "io-util", "process", "rt"] }
termcolor = "1"
