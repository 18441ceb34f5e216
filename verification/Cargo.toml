[package]
name = "thalamus"
version = "0.1.0"
edition = "2021"
publish = false

[dependencies]
rand = "0.8"
log = "0.4"
serde = { version = "1", features = ["derive"] }
serde_json = "1"
reqwest = { version = "0.11", default-features = false, features = ["blocking", "json", "multipart"] }
tokio = { version = "1", features = ["rt", "rt-multi-thread", "macros", "time"] }
simple-mdns = { version = "*", features = ["async-tokio"] }
simple-dns = "*"
local-ip-address = "*"
