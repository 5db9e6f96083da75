[package]
name = "step_harness"
version = "0.1.0"
edition = "2021"
publish = false

[dependencies]
getopts = "*"
serde = { version = "*", features = ["derive"] }
serde_json = "*"
tokio = { version = "*", default-features = false, features = ["macros", "rt-multi-thread"] }
web3 = { version = "*", default-features = false, features = ["http"] }
