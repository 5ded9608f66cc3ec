[package]
name = "voxel_rs"
version = "0.1.0"
edition = "2021"
publish = false

[dependencies]
hashbrown = "0.15"
num = "0.4"
bincode = "1.3"
serde = { version = "1", features = ["derive"] }
toml = "0.8"
noise = "0.9"
rand = "0.8"
nalgebra = "0.33"
