[package]
name = "fastlog"
version = "0.1.0"
edition = "2021"
publish = false

[dependencies]
chrono = "0.4"
crossbeam-channel = "0.5"
crossbeam-utils = "0.8"
dark-std = "*"
fastdate = "*"
flate2 = "1"
log = "0.4"
