[package]
name = "rebicycler"
version = "0.1.0"
edition = "2021"
publish = false

[dependencies]
rust-sc2 = "=1.1.2"
console = "=0.16.6"
image = { version = "=0.25.10", default-features = false, features = ["png"] }
num-traits = "=0.2.19"
