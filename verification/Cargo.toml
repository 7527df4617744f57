[package]
name = "fula_pool"
version = "0.1.0"
edition = "2021"
publish = false

[dependencies]
bounded-collections = { version = "=0.3.2", features = ["scale-codec"] }
parity-scale-codec = { version = "=3.7.5", features = ["derive", "max-encoded-len"] }
scale-info = { version = "=2.11.6", features = ["derive"] }
