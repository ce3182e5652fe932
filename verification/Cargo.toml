[package]
name = "lv2render"
version = "0.1.0"
edition = "2021"
publish = false

[dependencies]
anyhow = "=1.0.104"
clap = { version = "=4.6.7", features = ["derive"] }
hound = "=3.5.1"
libc = "=0.2.191"
livi = "0.4"
serde_yaml = "=0.9.34"
symphonia = { version = "=0.5.5", features = ["all"] }
