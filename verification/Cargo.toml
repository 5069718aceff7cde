[package]
name = "lis"
version = "0.1.0"
edition = "2021"
publish = false

[dependencies]
chrono = "0.4"
clap = { version = "4", features = ["derive"] }
csv = "1"
git2 = { version = "*", default-features = false }
humansize = "2"
ignore = "0.4"
lscolors = { version = "*", features = ["nu-ansi-term"] }
nix = { version = "*", features = ["fs"] }
serde = { version = "1", features = ["derive"] }
serde_json = "1"
serde_yaml = "*"
terminal_size = "*"
unicode-width = "*"
uzers = "*"
