[package]
name = "docker_guard"
version = "0.1.0"
edition = "2021"
publish = false

[dependencies]
regex = "*"
serde_json = "*"
clap = "*"
env_logger = "*"
log = "*"
fs2 = "*"
epoll = "*"
