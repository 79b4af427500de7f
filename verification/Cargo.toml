[package]
name = "mctl"
version = "0.1.0"
edition = "2021"
publish = false

[dependencies]
anyhow = "=1.0.104"
clap = { version = "=4.6.7", features = ["derive"] }
csv = "=1.4.0"
eframe = { version = "=0.21.3", default-features = false, features = ["default_fonts", "glow"] }
egui = { version = "=0.21.0", default-features = false }
random = "0.14"
serde = { version = "=1.0.229", features = ["derive"] }
serial-core = "0.4"
serial-unix = "0.4"
time = { version = "=0.3.55", features = ["formatting", "local-offset", "macros"] }
tokio = { version = "=1.54.1", features = ["rt-multi-thread", "macros", "sync", "time", "io-util"] }
tokio-serial = { version = "=5.5.0", default-features = false }
toml = "=0.8.23"

[dev-dependencies]
postcard = { version = "=1.1.3", features = ["use-std"] }
