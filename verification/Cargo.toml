[package]
name = "voronoi_ink"
version = "0.1.0"
edition = "2021"
publish = false

[dependencies]
image = "*"
rand = "*"
voronoice = "*"
