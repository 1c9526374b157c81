[package]
name = "kdump"
version = "0.1.0"
edition = "2021"
publish = false

[dependencies]
flate2 = "1"
clap = { version = "4", features = ["derive"] }
termcolor = "1"
atty = "0.2"

[dev-dependencies]
kerbalobjects = "4"
