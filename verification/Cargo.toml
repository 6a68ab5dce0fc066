[package]
name = "toql"
version = "0.1.0"
edition = "2021"
publish = false

[dependencies]
enquote = "1"
heck = "0.3"
pest = "2"
mysql = { version = "25", default-features = false, features = ["minimal-rust"] }
