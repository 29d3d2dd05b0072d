[package]
name = "renet_steam"
version = "0.1.0"
edition = "2021"
publish = false

[dependencies]
renet = "1"
steamworks = "0.11"
log = "0.4"
