[package]
name = "hvm_bench"
version = "0.1.0"
edition = "2021"
publish = false

[dependencies]
regex = "1"
anyhow = "1"
chrono = "0.4"
clap = { version = "4", features = ["derive"] }
fs-err = "2"
termcolor = "1"
thiserror = "1"
wait-timeout = "0.2"
