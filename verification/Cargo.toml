[package]
name = "kbdi"
version = "0.1.0"
edition = "2021"
publish = false

[dependencies]
indexmap = "*"
clap = { version = "*", features = ["derive"] }
log = "*"
fern = "*"
chrono = "*"
pathos = "*"
whoami = "*"
thiserror = "*"
