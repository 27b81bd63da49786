[package]
name = "tubedb"
version = "0.1.0"
edition = "2021"
publish = false

[dependencies]
md-5 = "*"
url = "*"
reqwest = { version = "*", default-features = false }
