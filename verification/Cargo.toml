[package]
name = "webapi_cache"
version = "0.1.0"
edition = "2021"
publish = false

[dependencies]
lru = "=0.18.5"
image = { version = "=0.25.10", default-features = false, features = ["png", "jpeg"] }
log = "=0.4.34"
env_logger = "=0.11.11"
chrono = "=0.4.45"
parking_lot = "=0.12.5"
