[package]
name = "thrift_wire"
version = "0.1.0"
edition = "2021"
publish = false

[dependencies]
clap = "2"
env_logger = "*"
log = "0.4"

[dev-dependencies]
thrift = { version = "*", default-features = false }
uuid = "*"
