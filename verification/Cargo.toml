[package]
name = "griphook"
version = "0.1.0"
edition = "2021"
publish = false

[dependencies]
regex = "=1.13.1"
image = "=0.25.10"
rsraw = "=0.1.1"
clap = { version = "=4.6.7", features = ["derive"] }
iced = { version = "=0.14.0", default-features = false, features = ["image", "tiny-skia", "x11", "thread-pool"] }
