[package]
name = "rmux-server"
version = "0.1.0"
edition = "2021"
publish = false

[dependencies]
glob = "0.3"
rustix = { version = "0.38", features = ["fs"] }
