[package]
name = "sig_subtract"
version = "0.1.0"
edition = "2021"
publish = false

[dependencies]
sourmash = "*"
serde_json = "*"
rayon = "*"
log = "*"
env_logger = "*"
structopt = "*"
