[package]
name = "multisig_bridge"
version = "0.1.0"
edition = "2021"
publish = false

[dependencies]
hex = "0.4"
subxt = "*"
sled = "0.34"
tokio = { version = "1", features = ["macros", "rt-multi-thread"] }
futures = "0.3"
dotenv = "0.15"
