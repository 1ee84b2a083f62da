[package]
name = "nix_shell_gen"
version = "0.1.0"
edition = "2021"
publish = false

[dependencies]
rnix = "0.11"
rowan = "0.15"
serde = { version = "1", features = ["derive"] }
toml = "0.8"
clap = { version = "4", features = ["derive"] }
