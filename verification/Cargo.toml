[package]
name = "phonon"
version = "0.1.0"
edition = "2021"
publish = false

[dependencies]
rand = "0.9"
glam = "0.29"
ndarray = "0.16"
parry3d = "*"
rustfft = "6"
biquad = "0.4"
ultraviolet = "0.9"
byteorder = "1"
sofar = "*"
