[package]
name = "co2_sensor"
version = "2.1.0"
edition = "2021"
publish = false

[dependencies]
anyhow = "1"
esp-idf-svc = "0.51"
log = "0.4"
