[package]
name = "ssh-guard"
version = "0.1.0"
edition = "2021"
publish = false

[dependencies]
shlex = "1"
clap = { version = "4", features = ["derive"] }
serde = { version = "1", features = ["derive"] }
serde_json = "1"
toml = "0.8"
syslog = "6"
log = "0.4"
nix = { version = "0.29", features = ["signal", "process"] }
thiserror = "1"
