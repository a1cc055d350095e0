[package]
name = "me_stow"
version = "0.1.0"
edition = "2021"
publish = false

[dependencies]
clap = { version = "4", features = ["derive"] }
console = "*"
dialoguer = "*"
dirs = "*"
itertools = "*"
rustc-hash = "*"
serde = { version = "1", features = ["derive"] }
symlink-rs = "*"
termtree = "*"
toml = "*"
