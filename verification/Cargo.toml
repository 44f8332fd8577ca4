[package]
name = "wgprobe"
version = "0.1.0"
edition = "2021"
publish = false

[dependencies]
base64 = "0.22"
boringtun = "*"
clap = { version = "4", features = ["derive"] }
crossterm = "0.29"
ctrlc = "3"
dirs = "*"
libc = "0.2"
napi = { version = "3", default-features = false, features = ["napi4", "tokio_rt"] }
napi-derive = "3"
pyo3 = { version = "*", features = ["abi3-py310"] }
rand_core = { version = "0.6", features = ["getrandom"] }
ratatui = "*"
reqwest = { version = "0.12", default-features = false, features = ["blocking", "rustls-tls"] }
rpassword = "*"
serde = { version = "1", features = ["derive"] }
serde_json = "1"
thiserror = "2"
unicode-width = "0.2"
zeroize = "1"

[dev-dependencies]
tempfile = "3"
