[package]
name = "mxr"
version = "0.1.0"
edition = "2021"
publish = false

[dependencies]
anyhow = "1"
bincode = "1.3"
libc = "0.2"
mio = { version = "1", features = ["os-poll", "os-ext", "net"] }
nix = { version = "0.29", features = ["fs", "process", "signal", "term", "ioctl"] }
rustix-openpty = "0.1"
serde = { version = "1", features = ["derive"] }
signal-hook = "0.3"
tracing = "0.1"
tracing-subscriber = "0.3"
