[package]
name = "crabber"
version = "0.1.0"
edition = "2021"
publish = false

[dependencies]
rand = "=0.8.8"
naia-bevy-client = "=0.20.1"
naia-bevy-server = "=0.20.0"
naia-bevy-shared = "=0.20.0"
bevy_app = "=0.10.1"
bevy_core = "=0.10.1"
bevy_ecs = "=0.10.1"
bevy_utils = "=0.10.1"
bevy_log = "=0.10.1"
