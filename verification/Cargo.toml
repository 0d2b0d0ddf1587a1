[package]
name = "ip_addr_op"
version = "0.1.0"
edition = "2021"
publish = false

[dependencies]
futures = "*"
rtnetlink = "*"
tokio = { version = "*", features = ["rt", "macros"] }
