[package]
name = "planner"
version = "0.1.0"
edition = "2021"
publish = false

[dependencies]
bresenham = "*"
clap = { version = "*", features = ["derive"] }
