[package]
name = "raycaster"
version = "0.1.0"
edition = "2021"
publish = false

[dependencies]
font8x8 = "*"
image = { version = "*", default-features = false, features = ["png"] }
minifb = { version = "*", default-features = false, features = ["x11"] }
winit = { version = "*", default-features = false, features = ["x11"] }
ron = "*"
serde = { version = "*", features = ["derive"] }
