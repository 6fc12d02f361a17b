[package]
name = "powblocs"
version = "0.1.0"
edition = "2021"
publish = false

[dependencies]
libsql = { version = "*", default-features = false, features = ["core"] }
tokio = { version = "*", features = ["rt-multi-thread", "sync"] }
