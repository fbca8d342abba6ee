[package]
name = "raqote_utils"
version = "0.1.0"
edition = "2021"

[dependencies]
raqote = "0.8"
font-kit = "*"
rustybuzz = "*"
euclid = "*"
pathfinder_geometry = "*"
