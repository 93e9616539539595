[package]
name = "nimble"
version = "0.1.0"
edition = "2021"
publish = false

[dependencies]
md-5 = "0.10"
percent-encoding = "2"
clap = { version = "4", features = ["derive"] }
serde = { version = "1", features = ["derive"] }
serde_json = "1"
ureq = { version = "2", default-features = false }
walkdir = "2"
tempfile = "3"
chrono = { version = "0.4", default-features = false, features = ["clock", "serde", "std"] }
crossbeam-channel = "0.5"
open = "5"
