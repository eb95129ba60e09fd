[package]
name = "alpenglow_formal"
version = "0.1.0"
edition = "2021"
publish = false

[dependencies]
stateright = "*"
num_cpus = "*"
env_logger = "*"
