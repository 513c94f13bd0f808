[package]
name = "load_balancer"
version = "0.1.0"
edition = "2021"
publish = false

[dependencies]
hyper = { version = "0.14", features = ["client", "server", "http1", "tcp"] }
tokio = { version = "1", features = ["rt-multi-thread", "macros", "sync", "net"] }
dotenvy = "0.15"
rand = "0.8"
