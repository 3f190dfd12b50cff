[package]
name = "bhtt"
version = "0.1.0"
edition = "2021"
publish = false

[dependencies]
superslice = "1"
ordered-float = "*"
statrs = "*"

[dev-dependencies]
approx = "*"
