[package]
name = "disk_hog_backup"
version = "0.1.0"
edition = "2021"
publish = false

[dependencies]
chrono = "=0.4.45"
clap = { version = "=4.6.7", features = ["derive"] }
env_logger = "=0.11.11"
log = "=0.4.34"
sha2 = "0.10"
