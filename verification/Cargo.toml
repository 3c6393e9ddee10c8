[package]
name = "universal_trigger"
version = "0.1.0"
edition = "2021"
publish = false

[dependencies]
ethers = { version = "2", default-features = false, features = ["abigen"] }
clap = { version = "4", default-features = false, features = ["std", "derive", "env", "help", "usage", "error-context"] }
eyre = "0.6"
tokio = { version = "1", features = ["macros", "rt-multi-thread"] }
