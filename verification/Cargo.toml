[package]
name = "nucgen"
version = "0.1.0"
edition = "2021"
publish = false

[dependencies]
rand = "0.8"
rand_chacha = "0.3"
gzp = { version = "*", default-features = false, features = ["deflate_rust"] }
num_cpus = "1"
clap = { version = "4", features = ["derive"] }
anyhow = "1"

[dev-dependencies]
seq_io = "0.3"
flate2 = "1"
