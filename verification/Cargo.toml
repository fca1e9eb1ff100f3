[package]
name = "datapool"
version = "0.1.0"
edition = "2021"
publish = false

[dependencies]
rand = "0.8"
rand_chacha = "0.3"
rand_distr = "0.4"
clap = { version = "4", features = ["derive"] }

[dev-dependencies]
byteorder = "1"
