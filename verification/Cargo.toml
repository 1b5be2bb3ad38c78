[package]
name = "ws_gateway"
version = "0.1.0"
edition = "2021"
publish = false

[dependencies]
actix = "=0.13.5"
actix-codec = "=0.5.4"
actix-http = { version = "=3.19.0", default-features = false, features = ["ws"] }
actix-web = { version = "=4.18.1", default-features = false, features = ["ws"] }
actix-web-actors = "=4.3.1"
awc = { version = "=3.11.0", default-features = false }
clap = "=4.6.7"
env_logger = "=0.11.11"
futures = "=0.3.34"
lazy_static = "=1.5.1"
parking_lot = "=0.12.5"
rand = "=0.8.8"
