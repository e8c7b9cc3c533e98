[package]
name = "diff_calc"
version = "0.1.0"
edition = "2021"
publish = false

[dependencies]
iced = { version = "0.14", default-features = false, features = ["tiny-skia", "image", "tokio"] }
image = { version = "0.25", default-features = false, features = ["png"] }
minacalc-rs = "*"
notify = "*"
notify-debouncer-mini = "*"
rfd = { version = "0.15", default-features = false }
serde = { version = "1", features = ["derive"] }
serde_yaml = "*"
tokio = { version = "1", default-features = false, features = ["time"] }
walkdir = "*"
