[package]
name = "rpc_replay"
version = "0.0.0"
edition = "2021"
publish = false

[dependencies]
boring = "1"
bytes = "1"
clap = "2"
mio = { version = "0.7", features = ["os-poll"] }
mpmc = "*"
rand = "0.8"
rand_distr = "0.4"
rand_xoshiro = "0.6"
slab = "0.4"
zstd = "0.9"
