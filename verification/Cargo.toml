[package]
name = "vecgra_studio"
version = "0.1.0"
edition = "2021"
publish = false

[dependencies]
chrono = "0.4"
serde = { version = "1", features = ["derive"] }
serde_json = "1"
ureq = { version = "3", features = ["json"] }
dirs = "*"
libc = "0.2"
petgraph = "*"
rand = "*"
