[package]
name = "raxx"
version = "0.1.0"
edition = "2021"
publish = false

[dependencies]
glob = "=0.3.4"
libc = "=0.2.191"
serde = { version = "=1.0.229", features = ["derive"] }
serde_json = "=1.0.154"
indicatif = "=0.17.11"
console = "=0.15.11"

[dev-dependencies]
duct = "0.13"
