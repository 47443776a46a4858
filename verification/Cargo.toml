[package]
name = "discrete_log_server"
version = "0.1.0"
edition = "2021"
publish = false

[dependencies]
futures = "=0.3.34"
rand = "=0.8.8"
termion = "=2.0.3"
tokio = { version = "=1.54.1", features = ["full"] }
tokio-stream = { version = "=0.1.19", features = ["net"] }
tokio-util = "=0.7.20"
tracing = "=0.1.44"
uuid = { version = "=1.29.0", features = ["v4"] }
