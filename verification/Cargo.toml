[package]
name = "seedsearch"
version = "0.1.0"
edition = "2021"
publish = false

[dependencies]
bip39 = "*"
bdk = "0.29"
bitcoin = "0.30"
clap = { version = "4", features = ["derive", "env"] }
futures = "0.3"
tokio = { version = "1", features = ["macros", "rt-multi-thread"] }
