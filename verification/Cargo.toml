[package]
name = "maze_hash"
version = "0.1.0"
edition = "2021"
publish = false

[dependencies]
java_random = "*"
crossterm = "0.19"
