[package]
name = "deposit_cw20"
version = "0.1.0"
edition = "2021"
publish = false

[dependencies]
cosmwasm-std = "=2.3.5"
cw2 = "=2.0.0"
cw20 = "=2.0.0"
cw20-base = { version = "=2.0.0", features = ["library"] }
cw-storage-plus = "=2.0.0"
schemars = "=0.8.22"
serde = "=1.0.229"
thiserror = "=2.0.21"
