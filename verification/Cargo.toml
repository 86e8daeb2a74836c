[package]
name = "cosmic-applet-window-list"
version = "0.1.0"
edition = "2021"
publish = false

[dependencies]
cosmic-client-toolkit = "=0.2.0"
cosmic-protocols = "=0.2.0"
futures = "0.3"
rustix = { version = "*", features = ["fs"] }
serde = { version = "1", features = ["derive"] }
tracing = "0.1"
tracing-subscriber = { version = "0.3", features = ["env-filter"] }
