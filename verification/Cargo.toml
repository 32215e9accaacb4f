[package]
name = "sponk"
version = "0.1.0"
edition = "2021"
publish = false

[dependencies]
clap = { version = "*", features = ["derive"] }
futures = "*"
num_cpus = "*"
tokio-uring = "*"

[dev-dependencies]
bstr = "*"
