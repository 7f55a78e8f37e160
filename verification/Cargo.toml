[package]
name = "deet"
version = "0.1.0"
edition = "2021"
publish = false

[dependencies]
serde_json = "*"
nix = { version = "*", features = ["ptrace", "signal", "process"] }
rustyline = "*"
ureq = { version = "2", default-features = false }
