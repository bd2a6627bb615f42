[package]
name = "pg_connection"
version = "0.1.0"
edition = "2021"
publish = false

[dependencies]
bytes = "1"
url = "2"
tokio = { version = "1", default-features = false, features = ["net", "io-util"] }
futures-core = "0.3"
futures-util = "0.3"
futures-io = "0.3"
