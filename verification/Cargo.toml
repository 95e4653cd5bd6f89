[package]
name = "context_deserialize"
version = "0.1.0"
edition = "2021"
publish = false

[dependencies]
syn = "=1.0.109"
quote = "1"
proc-macro2 = "1"
serde = { version = "1", features = ["derive"] }
ssz_types = "*"
