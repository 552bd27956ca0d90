[package]
name = "turtleplan"
version = "0.1.0"
edition = "2021"
publish = false

[dependencies]
macroquad = "*"
mlua = { version = "*", features = ["lua54", "vendored"] }
