[package]
name = "rtps_core"
version = "0.1.0"
edition = "2021"
publish = false

[dependencies]
bit-set = "*"
bit-vec = "*"
bytes = "1"
itertools = "*"
mio = "0.6"
mio-extras = "2"
speedy = "*"
serde = { version = "1", features = ["derive"] }
chrono = "0.4"
time = "0.1"
log = "0.4"
enumflags2 = "*"
