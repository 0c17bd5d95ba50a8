[package]
name = "baxzup"
version = "0.1.0"
edition = "2021"
publish = false

[dependencies]
regex = "1"
tar = "0.4"
xz2 = "0.1"
os_pipe = "1"
fs-id = "*"
clap = { version = "4", features = ["derive", "cargo"] }
toml = "0.8"
chrono = "0.4"
colored = "2"
dirs = "5"
sysinfo = "0.30"
indicatif = "0.17"
shh = "1"
supports-unicode = "*"
