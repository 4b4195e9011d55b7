[package]
name = "maplibre"
version = "0.1.0"
edition = "2021"
publish = false

[dependencies]
bytemuck = "1"
cgmath = "*"
geozero = { version = "*", default-features = false, features = ["with-mvt"] }
lyon = "*"
prost = "*"
