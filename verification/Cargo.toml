[package]
name = "broker"
version = "0.1.0"
edition = "2021"
publish = false

[dependencies]
mqtt-protocol = "0.12"
tokio-core = "0.1"
tokio-io = "0.1"
tokio-tls = "0.2"
native-tls = "0.2"
futures = "0.1"
bytes = "0.4"
byteorder = "1"
mio = "0.6"
net2 = "0.2"
uuid = { version = "0.4", features = ["v4"] }
bincode = "0.8"
serde = { version = "1", features = ["derive"] }
clap = "2"
ansi_term = "0.9"
rustyline = "1"
time = "0.1"
log = "0.3"
env_logger = "0.4"
