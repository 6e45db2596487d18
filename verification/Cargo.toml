[package]
name = "fluxcut"
version = "0.1.0"
edition = "2021"
publish = false

[dependencies]
directories = "*"
sha2 = "*"
serde = { version = "1", features = ["derive"] }
serde_json = "1"
thiserror = "*"
tracing = "*"
tracing-subscriber = { version = "*", features = ["env-filter", "fmt"] }
crossbeam-channel = "*"
ffmpeg-next = "*"
cpal = "*"
gtk4 = "*"
libadwaita = "*"
