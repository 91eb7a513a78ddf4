[package]
name = "hypercube_optimizer"
version = "0.1.0"
edition = "2021"

[dependencies]
log = "0.4"
ordered-float = "*"
rand = "0.8"
rayon = "1"
simple_logger = "*"
