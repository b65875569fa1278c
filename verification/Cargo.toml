[package]
name = "bx"
version = "0.1.0"
edition = "2021"
publish = false

[dependencies]
anstyle = "=1.0.14"
clap = { version = "=4.6.7", features = ["derive"] }
color-eyre = "=0.6.5"
eyre = "=0.6.14"
indicatif = "=0.18.6"
inquire = "=0.9.4"
rmp-serde = "=1.3.1"
rustix = { version = "=1.1.6", features = ["fs", "process"] }
serde = { version = "=1.0.229", features = ["derive"] }
sha2 = "=0.10.9"
similar = "3"
thiserror = "=2.0.21"
tracing = "=0.1.44"
tracing-subscriber = { version = "=0.3.23", features = ["env-filter"] }
