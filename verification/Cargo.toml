[package]
name = "mlua_core"
version = "0.1.0"
edition = "2021"
publish = false

[dependencies]
futures-core = "0.3"
futures-task = "0.3"
futures-util = { version = "0.3", default-features = false, features = ["std"] }
serde = "1.0"
