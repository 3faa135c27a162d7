[package]
name = "batch_crop"
version = "0.1.0"
edition = "2021"
publish = false

[dependencies]
image = "=0.25.10"
rayon = "=1.12.0"
libc = "=0.2.190"
vips-sys = { version = "=0.2.0", features = ["stub"] }
