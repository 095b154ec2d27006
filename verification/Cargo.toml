[package]
name = "deep_thought"
version = "0.1.0"
edition = "2021"
publish = false

[dependencies]
rand = "0.8"
rand_distr = "0.4"
anyhow = "1"
thiserror = "1"
log = "0.4"
