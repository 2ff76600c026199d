[package]
name = "focus_sampler"
version = "0.1.0"
edition = "2021"
publish = false

[dependencies]
regex = "1"
swayipc = "3"
rusqlite = { version = "*", features = ["bundled"] }
tokio = { version = "1", features = ["macros", "rt", "time"] }
log = "0.4"
env_logger = "0.11"
systemd-journal-logger = "2"
