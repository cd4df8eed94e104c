[package]
name = "compactr"
version = "0.1.0"
edition = "2021"
publish = false

[dependencies]
bytes = "1"
chrono = { version = "0.4", default-features = false, features = ["std", "clock"] }
indexmap = "2"
thiserror = "1"
uuid = "1"

[dev-dependencies]
serde_json = "1"
