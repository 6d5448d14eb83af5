[package]
name = "indistocks"
version = "0.1.0"
edition = "2021"
publish = false

[dependencies]
chrono = { version = "=0.4.45", default-features = false, features = ["std", "clock"] }
clap = { version = "=4.6.7", features = ["derive"] }
csv = "=1.4.0"
directories = "=5.0.1"
egui = { version = "0.29", default-features = false }
egui_extras = { version = "0.29", default-features = false }
egui_plot = { version = "0.29", default-features = false }
reqwest = { version = "=0.12.28", default-features = false, features = ["blocking", "cookies", "gzip", "rustls-tls"] }
rusqlite = { version = "=0.32.1", features = ["bundled"] }
serde = { version = "=1.0.229", features = ["derive"] }
zip = { version = "=2.6.1", default-features = false, features = ["deflate"] }
