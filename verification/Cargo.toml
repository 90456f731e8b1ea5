[package]
name = "rastro"
version = "0.1.0"
edition = "2021"
publish = false

[dependencies]
nalgebra = "=0.35.0"
rsofa = "=0.4.5"
ureq = "=2.12.1"
is_close = "=0.1.3"

[dev-dependencies]
approx = "=0.5.1"
