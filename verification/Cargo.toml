[package]
name = "web_transport"
version = "0.1.0"
edition = "2021"
publish = false

[dependencies]
bytes = "0.4"
futures = "0.1"
h2 = "0.1"
http = "0.1"
httparse = "1.3"
mime = "0.3"
tokio-io = "0.1"
tokio-timer = "0.2"
