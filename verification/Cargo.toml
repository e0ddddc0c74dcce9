[package]
name = "neo_granseal"
version = "0.1.0"
edition = "2021"
publish = false

[dependencies]
bytemuck = "=1.25.2"
bytemuck_derive = "=1.12.1"
env_logger = { version = "=0.10.2", default-features = false }
image = "=0.24.9"
log = "=0.4.35"
num-traits = "=0.2.19"
pollster = "=0.3.0"
rand = "=0.8.8"
rand_xorshift = "=0.3.0"
