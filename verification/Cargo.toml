[package]
name = "softraster"
version = "0.1.0"
edition = "2021"
publish = false

[dependencies]
smallvec = "1"
embedded-graphics = "*"
micromath = "*"
nanorand = { version = "*", default-features = false, features = ["wyrand"] }
rand = "*"
trowel = "*"
