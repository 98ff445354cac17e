[package]
name = "i3_launchpad"
version = "0.1.0"
edition = "2021"
publish = false

[dependencies]
i3ipc = "=0.10.1"
launchpad = "=0.1.1"
portmidi = "=0.2.4"
serde = { version = "=1.0.229", features = ["derive"] }
toml = "=0.5.11"
