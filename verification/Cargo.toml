[package]
name = "roulette"
version = "0.1.0"
edition = "2021"
publish = false

[dependencies]
sha2 = "=0.10.9"
rand_chacha = "=0.3.1"
rand_core = "=0.6.4"
secret-cosmwasm-std = { version = "=1.1.11", features = ["random"] }
secret-toolkit-storage = "=0.10.3"
serde = { version = "=1.0.229", features = ["derive"] }
schemars = "=0.8.22"
thiserror = "=1.0.69"
