[package]
name = "socket_toolbox"
version = "0.1.0"
edition = "2021"
publish = false

[dependencies]
socket2 = "*"
log = "*"
simplelog = "*"

[dev-dependencies]
hex = "*"
bytes = "*"
