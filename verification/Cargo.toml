[package]
name = "clux"
version = "0.1.0"
edition = "2021"
publish = false

[dependencies]
serde = { version = "1", features = ["derive"] }
bincode = "1"
crossterm = "0.28"
toml = "0.8"
dirs = "5"
shellexpand = "3"
anyhow = "1"
thiserror = "1"
log = "0.4"
env_logger = "0.11"
nix = { version = "0.29", features = ["fs"] }
mio = { version = "1", features = ["os-poll", "os-ext"] }
vte = "0.13"
