[package]
name = "json_ipc_server"
version = "0.1.0"
edition = "2021"
publish = false

[dependencies]
jsonrpc-core = "18"
mio = { version = "1", features = ["os-poll", "net"] }
