[package]
name = "rerecast"
version = "0.1.0"
edition = "2021"
publish = false

[dependencies]
rayon = "=1.12.0"
glam = { version = "=0.34.1", features = ["serde"] }
thiserror = "=2.0.21"
serde = { version = "=1.0.229", features = ["derive"] }
