[package]
name = "midianimator"
version = "0.1.0"
edition = "2021"
publish = false

[dependencies]
midly = "=0.5.3"
serde = { version = "=1.0.229", features = ["derive"] }
serde_json = "=1.0.154"
uuid = { version = "=1.29.0", features = ["v4"] }
once_cell = "=1.21.4"
lazy_static = "=1.5.1"
tokio = { version = "=1.54.1", features = ["rt-multi-thread", "macros", "time"] }
