[package]
name = "rinex"
version = "0.1.0"
edition = "2021"
publish = false

[dependencies]
hifitime = "=3.9.0"
gnss-rs = { version = "=2.2.4", features = ["domes", "cospar"] }
md-5 = "=0.10.6"
num-integer = "=0.1.47"
flate2 = "=1.1.10"
