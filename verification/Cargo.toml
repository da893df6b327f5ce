[package]
name = "expl"
version = "0.1.0"
edition = "2021"
publish = false

[dependencies]
bincode = "1"
data-encoding = "2"
disjoint-hash-set = "*"
fixedbitset = "0.5"
glam = "0.29"
rand = "0.8"
rand_xoshiro = "0.6"
serde = { version = "1", features = ["derive"] }
serde_with = "3"
thiserror = "1"
toml = "0.8"
