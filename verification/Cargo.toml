[package]
name = "waybar_module_pomodoro"
version = "0.1.0"
edition = "2021"
publish = false

[dependencies]
notify-rust = "4"
serde = { version = "1", features = ["derive"] }
serde_json = "1"
signal-hook = "0.3"
