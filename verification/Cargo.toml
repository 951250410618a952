[package]
name = "route-rs-runtime"
version = "0.1.0"
edition = "2021"
publish = false

[dependencies]
crossbeam = "0.7"
futures = "0.1"
tokio = "0.1"
