[package]
name = "northstar_rcon_client"
version = "0.1.0"
edition = "2021"
publish = false

[dependencies]
clap = { version = "*", features = ["derive"] }
crossterm = "*"
futures = "*"
proc-exit = "*"
rpassword = "*"
rustyline-async = "*"
thiserror = "*"
tokio = { version = "*", features = ["net", "io-util", "rt"] }
