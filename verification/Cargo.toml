[package]
name = "sddc"
version = "0.1.0"
edition = "2021"
publish = false

[dependencies]
anyhow = "1"
clap = { version = "4", features = ["derive"] }
ctrlc = "3"
env_logger = "*"
log = "0.4"
num-complex = "0.4"
nusb = "*"
realfft = "3"
rustfft = "6"
wide = "*"
