[package]
name = "vlp"
version = "0.1.0"
edition = "2021"
publish = false

[dependencies]
chrono = "0.4"
clap = { version = "4", features = ["derive"] }
console = "*"
fs_extra = "*"
indicatif = "*"
rand = "0.9"
tempfile = "*"
which = "*"
