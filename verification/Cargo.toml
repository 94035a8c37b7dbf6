[package]
name = "filetree"
version = "0.1.0"
edition = "2021"
publish = false

[dependencies]
chrono = "0.4"
clap = { version = "4", features = ["derive"] }
crossterm = "0.28"
ratatui = "0.29"
rayon = "1"
nix = { version = "0.29", features = ["fs", "user"] }
libc = "0.2"

[dev-dependencies]
tempfile = "3"
