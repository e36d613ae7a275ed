[package]
name = "turbogit_ui"
version = "0.1.0"
edition = "2021"
publish = false

[dependencies]
image = { version = "=0.25.10", default-features = false, features = ["png", "jpeg", "gif", "webp"] }
chrono = { version = "0.4", default-features = false, features = ["clock", "std"] }
