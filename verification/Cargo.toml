[package]
name = "rusnapshot"
version = "0.1.0"
edition = "2021"

[dependencies]
anyhow = "1"
chrono = "0.4"
clap = { version = "4", features = ["derive", "env"] }
hostname = "0.4"
libc = "0.2"
md5 = "*"
prettytable-rs = "0.10"
serde = { version = "1", features = ["derive"] }
sqlite = "*"
toml = "*"
