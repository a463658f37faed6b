[package]
name = "rsp_client"
version = "0.1.0"
edition = "2021"
publish = false

[dependencies]
chrono = { version = "*", default-features = false, features = ["std"] }
crc32c = "*"
mur3 = "*"
num-complex = "*"
rmp = "*"
uuid = { version = "*", features = ["v4"] }
zstd = "*"
