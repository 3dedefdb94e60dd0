[package]
name = "vpn_server"
version = "0.1.0"
edition = "2021"
publish = false

[dependencies]
config = "*"
tokio = { version = "*", features = ["macros", "rt-multi-thread", "sync", "time", "signal"] }
clap = "*"
dirs = "*"
if-addrs = "*"
log = "*"
async-trait = "*"
serde = { version = "*", features = ["derive"] }
base58 = "*"
