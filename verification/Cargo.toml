[package]
name = "forge_core"
version = "0.1.0"
edition = "2021"
publish = false

[dependencies]
libc = "0.2"
nix = { version = "0.29", features = ["signal", "socket", "event", "inotify", "process", "user", "fs"] }
parking_lot = "0.12"
rhai = "1"
serde = { version = "1", features = ["derive"] }
serde_json = "1"
shell-words = "1"
slotmap = "1"
toml = "0.8"
zbus = "5"
