[package]
name = "circuitbuilder"
version = "0.1.0"
edition = "2021"
publish = false

[dependencies]
serde_json = "=1.0.151"
eframe = { version = "=0.27.2", default-features = false, features = ["glow"] }
rfd = { version = "=0.17.2", default-features = false, features = ["xdg-portal"] }
