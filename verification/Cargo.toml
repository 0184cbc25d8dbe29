[package]
name = "half_tree_dpf"
version = "0.1.0"
edition = "2021"
publish = false

[dependencies]
aes = "0.8"
rand_chacha = "0.3"
thiserror = "1"
zeroize = { version = "1", features = ["derive"] }
