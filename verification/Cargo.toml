[package]
name = "ntu_timetable_ics"
version = "0.1.0"
edition = "2021"
publish = false

[dependencies]
chrono = "0.4"
uuid = { version = "1", features = ["v4"] }
ics = "*"
clap = { version = "4", features = ["derive"] }
env_logger = "*"
log = "*"
