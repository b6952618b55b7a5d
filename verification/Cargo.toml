[package]
name = "i3utils"
version = "0.1.0"
edition = "2021"
publish = false

[dependencies]
anyhow = "1"
clap = { version = "*", features = ["derive"] }
directories = "*"
duct = "*"
env_logger = "*"
i3ipc = "*"
json = "*"
log = "0.4"
regex = "1"
xcb = "*"
