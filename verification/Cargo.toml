[package]
name = "defunct"
version = "0.1.0"
edition = "2021"
publish = false

[dependencies]
allocator-api2 = "0.2"
hashbrown = "0.15"
