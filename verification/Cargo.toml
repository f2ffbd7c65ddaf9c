[package]
name = "soundvibes"
version = "0.1.0"
edition = "2021"
publish = false

[dependencies]
chrono = "0.4"
ringbuf = "0.3"
clap = { version = "4", features = ["derive"] }
cpal = "0.15"
hound = "3.5"
serde = { version = "1", features = ["derive"] }
signal-hook = "0.3"
toml = "0.8"
ureq = "2"
