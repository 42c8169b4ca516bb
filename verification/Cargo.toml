[package]
name = "thermal_sampler"
version = "0.1.0"
edition = "2021"
publish = false

[dependencies]
clearscreen = "*"
sysinfo = { version = "0.29", default-features = false }
