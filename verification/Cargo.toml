[package]
name = "statusbar"
version = "0.1.0"
edition = "2021"
publish = false

[dependencies]
smithay-client-toolkit = { version = "=0.21.1", default-features = false, features = ["calloop"] }
wayland-client = "=0.31.15"
ab_glyph = "=0.2.32"
font-kit = "=0.14.3"
clap = { version = "=4.6.7", features = ["derive"] }
log = "=0.4.34"
env_logger = "=0.11.11"
