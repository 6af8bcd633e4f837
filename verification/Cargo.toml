[package]
name = "innovus"
version = "0.1.0"
edition = "2021"
publish = false

[dependencies]
uuid = { version = "1", features = ["v4"] }
json = "0.12"
num = "0.4"
gl = "0.14"
glfw = { version = "*", default-features = false }
image = { version = "*", default-features = false, features = ["png"] }
