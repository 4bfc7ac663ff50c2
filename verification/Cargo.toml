[package]
name = "draug"
version = "0.1.0"
edition = "2021"
publish = false

[dependencies]
clap = { version = "4", features = ["derive"] }
nix = { version = "0.30", features = ["event", "process", "signal", "time"] }
serde_json = "1"
ureq = "3"
