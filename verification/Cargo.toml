[package]
name = "bpc"
version = "0.1.0"
edition = "2021"
publish = false

[dependencies]
ratatui = "0.29"
mlua = { version = "0.10", features = ["lua54", "vendored"] }
