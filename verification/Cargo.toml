[package]
name = "llrt_core"
version = "0.1.0"
edition = "2021"
publish = false

[dependencies]
zstd = "*"
rquickjs = { version = "*", features = ["loader", "futures"] }
once_cell = "*"
tracing = "*"
tokio = { version = "*", features = ["rt-multi-thread", "macros"] }
constcat = "*"
http-body-util = "*"
snmalloc-rs = "*"
