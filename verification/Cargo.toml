[package]
name = "mirage"
version = "0.1.0"
edition = "2021"
publish = false

[dependencies]
num-complex = { version = "=0.4.6", features = ["bytemuck"] }
num-traits = "=0.2.19"
bytemuck = "=1.25.2"
image = "=0.24.9"
clap = "=3.2.25"
