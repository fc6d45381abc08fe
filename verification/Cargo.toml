[package]
name = "async_chat_server"
version = "0.1.0"
edition = "2021"
publish = false

[dependencies]
openssl = "0.10"
tokio = { version = "1", features = ["rt-multi-thread", "macros", "net", "io-util", "io-std", "sync"] }
get_if_addrs = "0.5"
