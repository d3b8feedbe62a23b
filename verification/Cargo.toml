[package]
name = "whiskey"
version = "0.1.0"
edition = "2021"
publish = false

[dependencies]
fastrand = "2"
combination = "*"
serde = { version = "1", features = ["derive"] }
serde_yaml = "0.9"
macroquad = "0.4"
miniquad = "0.4"
hashbrown = "*"
array2d = "*"
web-time = "*"
