[package]
name = "mine_sweeper"
version = "0.1.0"
edition = "2021"
publish = false

[dependencies]
macroquad = { version = "0.4", default-features = false }
miniquad = "0.4"
crossterm = "*"
