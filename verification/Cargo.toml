[package]
name = "headj"
version = "0.1.0"
edition = "2021"
publish = false

[dependencies]
json-event-parser = "0.1"
clap = { version = "4", features = ["derive"] }
console = "0.15"
env_logger = "0.11"
eyre = "0.6"
log = "0.4"
once_cell = "1"
