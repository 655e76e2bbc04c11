[package]
name = "idlectl"
version = "0.1.0"
edition = "2021"
publish = false

[dependencies]
anyhow = "1"
async-channel = "2"
async-io = "2"
async-lock = "3"
async-net = "2"
async-process = "2"
clap = { version = "4", features = ["derive"] }
futures-lite = "2"
rustix = { version = "1", features = ["event", "fs", "pipe", "process", "time"] }
serde = { version = "1", features = ["derive"] }
serde_json = "1"
toml = "*"
tracing = "0.1"
tracing-subscriber = { version = "0.3", features = ["env-filter"] }
wayland-client = "0.31"
wayland-protocols = { version = "0.32", features = ["client", "staging"] }
wayland-protocols-plasma = { version = "0.3", features = ["client"] }
wayland-protocols-wlr = { version = "0.3", features = ["client"] }
x11rb = { version = "0.13", features = ["dpms", "screensaver"] }
zbus = { version = "5" }
