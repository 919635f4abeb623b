[package]
name = "bamsample"
version = "0.1.0"
edition = "2021"
publish = false

[dependencies]
rand = "0.8"
rand_pcg = "0.3"
getopts = "0.2"
chrono = "0.4"
log = "0.4"
env_logger = "0.10"
rust-htslib = { version = "0.44", default-features = false }
