[package]
name = "tracker_checker"
version = "0.1.0"
edition = "2021"
publish = false

[dependencies]
bip_util = "*"
bip_utracker = "*"
nom = "3"
tokio = { version = "1", features = ["rt", "macros", "net", "fs", "time", "sync", "io-util"] }
futures = "0.3"
rand = "0.8"
