[package]
name = "daft_html"
version = "0.1.0"
edition = "2021"
publish = false

[dependencies]
scraper = "=0.29.0"
ego-tree = "=0.11.1"
arrow = { version = "=58.4.1", default-features = false, features = ["ffi"] }
daft-ext = { version = "=0.1.1", features = ["arrow-58"] }
