[package]
name = "merkle"
version = "0.1.0"
edition = "2021"
publish = false

[dependencies]
pinocchio = { version = "=0.10.2", features = ["cpi"] }
pinocchio-pubkey = { version = "=0.3.0", features = ["const"] }
pinocchio-system = "=0.5.0"
quasar-lang = "=0.0.0"
sha2 = "=0.10.9"
