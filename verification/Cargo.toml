[package]
name = "spektri"
version = "0.1.0"
edition = "2021"
publish = false

[dependencies]
byte = "0.2"
clap = "2"
rayon = "1"
rustfft = "6"
zmq = "0.10"
