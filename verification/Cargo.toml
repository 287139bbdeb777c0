[package]
name = "rustsfm"
version = "0.1.0"
edition = "2021"
publish = false

[dependencies]
anyhow = "1"
glam = "0.29"
image = { version = "0.25", default-features = false, features = ["jpeg", "png"] }
log = "0.4"
nalgebra = "0.33"
rayon = "1"
serde = { version = "1", features = ["derive"] }
