[package]
name = "xrds_runtime"
version = "0.1.0"
edition = "2021"
publish = false

[dependencies]
gltf = { version = "1", default-features = false, features = ["names"] }
