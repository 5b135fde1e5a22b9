[package]
name = "pineflip"
version = "0.1.0"
edition = "2021"
publish = false

[dependencies]
anyhow = "1"
clap = { version = "4", features = ["derive"] }
dirs = "5"
gio = "*"
glib = "*"
gtk4 = "*"
image = { version = "0.25", default-features = false, features = ["png"] }
libadwaita = { version = "*", features = ["v1_5"] }
serde = { version = "1", features = ["derive"] }
serialport = { version = "4", default-features = false }
tokio = { version = "1", features = ["rt", "rt-multi-thread", "sync", "time", "macros"] }
toml = "*"
tracing = "0.1"
tracing-subscriber = { version = "0.3", features = ["env-filter"] }
