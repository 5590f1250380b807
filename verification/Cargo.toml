[package]
name = "kmeans_palette"
version = "0.1.0"
edition = "2021"
publish = false

[dependencies]
clap = { version = "4", features = ["derive"] }
image = "0.24"
rand = "0.8"
rayon = "1"
