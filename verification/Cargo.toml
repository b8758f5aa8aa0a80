[package]
name = "tabforge"
version = "0.1.0"
edition = "2021"
publish = false

[dependencies]
midly = "0.5"
num-rational = "0.4"
serde = { version = "1", features = ["derive"] }
toml = "0.8"
thiserror = "1"
anyhow = "1"
clap = { version = "4", features = ["derive"] }
tracing = "0.1"
tracing-subscriber = { version = "0.3", features = ["env-filter"] }
symphonia = "0.5"
rustfft = "6"
indicatif = "0.17"
ureq = "2"
