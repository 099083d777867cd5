[package]
name = "selene"
version = "0.1.0"
edition = "2021"
publish = false

[dependencies]
bytes = "=1.12.1"
compio = { version = "=0.19.2", features = ["bytes", "io", "net", "time"] }
core_affinity = "=0.8.3"
derive_more = { version = "=2.1.1", features = ["display"] }
flume = "=0.12.0"
slab = "=0.4.12"
socket2 = { version = "=0.6.5", features = ["all"] }
thiserror = "=2.0.21"
tracing = "=0.1.44"
tracing-subscriber = "=0.3.23"
