[package]
name = "usnjrnl"
version = "0.1.0"
edition = "2021"
publish = false

[dependencies]
anyhow = "1"
binread = "2"
bodyfile = "*"
chrono = { version = "0.4", features = ["serde"] }
clap = "2"
flate2 = "1"
log = "0.4"
serde_json = "1"
simplelog = "0.12"
winstructs = "0.3"
