[package]
name = "wordcoop"
version = "0.1.0"
edition = "2021"
publish = false

[dependencies]
itertools = "*"
rand = "*"
websocket = { version = "*", default-features = false, features = ["sync"] }
