[package]
name = "wc3proxy"
version = "0.1.0"
edition = "2021"
publish = false

[dependencies]
tokio = { version = "1", features = ["net", "rt-multi-thread", "time", "io-util"] }
futures = "0.3"
directories = "*"
