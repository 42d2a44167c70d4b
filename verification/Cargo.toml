[package]
name = "zed_locale"
version = "0.1.0"
edition = "2021"
publish = false

[dependencies]
serde_json = "1"
regex = "1"
url = "2"
parking_lot = "0.12"
sys-locale = "0.3"
