[package]
name = "rustis"
version = "0.1.0"
edition = "2021"
publish = false

[dependencies]
bytes = "*"
tokio = { version = "*", features = ["full"] }
crossbeam = "*"
core_affinity = "*"
thread-priority = "*"
rtrb = "*"
