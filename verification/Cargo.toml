[package]
name = "unix_ipc"
version = "0.1.0"
edition = "2021"
publish = false

[dependencies]
backtrace = { version = "0.3", features = ["serde"] }
bincode = "1.3"
libc = "0.2"
nix = "0.26"
rand = "0.8"
rmp-serde = "1"
serde = { version = "1", features = ["derive"] }
tokio = { version = "1", features = ["net", "rt", "sync", "macros"] }
