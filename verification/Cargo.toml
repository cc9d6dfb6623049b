[package]
name = "search_utils"
version = "0.1.0"
edition = "2021"
publish = false

[dependencies]
rayon = "*"
anyhow = "*"
backon = "*"
crossterm = "*"
lazy_static = "*"
log = "*"
uuid = { version = "*", features = ["v4"] }
