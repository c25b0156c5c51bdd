[package]
name = "clm-vdisplay"
version = "0.1.0"
edition = "2021"
publish = false

[dependencies]
anyhow = "1"
bytes = "1"
clap = { version = "4", features = ["derive"] }
flate2 = "1"
futures-util = { version = "0.3", features = ["sink"] }
image = { version = "0.25", default-features = false, features = ["jpeg", "png"] }
libc = "0.2"
nix = { version = "0.29", features = ["signal", "process"] }
parking_lot = "0.12"
rayon = "1"
serde = { version = "1", features = ["derive"] }
serde_json = "1"
tokio = { version = "1", features = ["full"] }
tokio-tungstenite = "0.24"
tokio-util = "0.7"
tracing = "0.1"
tracing-subscriber = "0.3"
x11rb = { version = "0.13", features = ["damage", "shm", "xfixes", "xtest"] }
