[package]
name = "minidb"
version = "0.1.0"
edition = "2021"

[dependencies]
uuid = { version = "1", features = ["v7"] }
pretty-table = "*"
