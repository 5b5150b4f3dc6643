[package]
name = "playground_ui"
version = "0.1.0"
edition = "2021"
publish = false

[dependencies]
uuid = { version = "1", features = ["v4", "serde"] }
bytes = "1"
serde = { version = "1", features = ["derive"] }
serde_json = "1"
thiserror = "1"
nalgebra = { version = "0.33", features = ["serde-serialize"] }
tokio = { version = "1", features = ["sync", "rt", "macros", "net"] }
tokio-tungstenite = "*"
futures-util = { version = "0.3", features = ["sink"] }
