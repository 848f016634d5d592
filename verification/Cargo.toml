[package]
name = "j1939"
version = "0.1.0"
edition = "2021"
publish = false

[dependencies]
tabled = "*"
syn = { version = "2", features = ["full"] }
quote = "1"
proc-macro2 = "1"
