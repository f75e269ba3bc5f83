[package]
name = "spendlog"
version = "0.1.0"
edition = "2021"
publish = false

[dependencies]
chrono = "*"
clap = { version = "*", features = ["derive"] }
colored = "*"
dialoguer = "*"
postgres = "*"
thiserror = "*"
