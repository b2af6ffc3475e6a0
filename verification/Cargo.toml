[package]
name = "zmq_arena"
version = "0.1.0"
edition = "2021"
publish = false

[dependencies]
anyhow = "=1.0.104"
bytes = "=1.12.1"
celerity = { version = "=0.1.1", features = ["ipc", "tokio"] }
clap = { version = "=4.6.7", features = ["derive"] }
compio-io = "=0.10.1"
futures = "=0.3.34"
libc = "=0.2.191"
monocoque-rs = { version = "=0.4.2", features = ["zmq"] }
omq-tokio = "=0.21.4"
perf-event-open-sys = "=7.1.0"
plotters = { version = "=0.3.7", default-features = false, features = ["svg_backend", "line_series"] }
rzmq = { version = "=0.5.28", features = ["io-uring"] }
serde = { version = "=1.0.229", features = ["derive"] }
serde_json = "=1.0.154"
tmq = "=0.5.0"
tokio = { version = "=1.54.1", features = ["full"] }
zeromq = "=0.6.0"
zmq = "=0.10.0"
