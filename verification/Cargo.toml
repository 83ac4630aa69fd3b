[package]
name = "app-kernel"
version = "0.1.0"
edition = "2021"
publish = false

[dependencies]
compression = "*"
libc = "0.2"
log = "0.4"
yansi = "1"
spin = "0.9"
futures = "0.3"
tokio = { version = "1", features = ["rt", "rt-multi-thread", "signal", "time", "sync", "macros"] }
libloading = "0.8"
actix = "0.13"
