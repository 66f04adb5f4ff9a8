[package]
name = "rusty_static_server"
version = "0.1.0"
edition = "2021"
publish = false

[dependencies]
chrono = "0.4"
mime_guess = "2.0"
num_cpus = "1.0"
path-clean = "1.0"
urlencoding = "2.1"
