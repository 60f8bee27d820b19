[package]
name = "sandboxfs"
version = "0.1.0"
edition = "2021"
publish = false

[dependencies]
clap = { version = "4", features = ["derive"] }
crossterm = "*"
fuser = "*"
glob = "0.3"
libc = "0.2"
ratatui = "*"
serde = { version = "1", features = ["derive"] }
serde_json = "1"
shlex = "1"
signal-hook = "*"
sysinfo = "*"
thiserror = "*"
