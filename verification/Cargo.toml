[package]
name = "xp"
version = "0.1.0"
edition = "2021"
publish = false

[dependencies]
byteorder = "1"
image = { version = "0.24", default-features = false, features = ["png", "jpeg"] }
serde = { version = "1", features = ["derive"] }
serde_cbor = "0.11"
crc32fast = "1"
glam = "*"
nalgebra-glm = "*"
tobj = "*"
num = "0.4"
structopt = "0.3"
