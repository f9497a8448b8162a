[package]
name = "fxcp_core"
version = "0.1.0"
edition = "2021"
publish = false

[dependencies]
bincode = "1.3"
blake3 = "1"
chrono = "0.4"
clap = { version = "4", features = ["derive"] }
comfy-table = "7"
crossbeam = "0.8"
dashmap = "5"
flate2 = "1"
fxhash = "0.2"
glob = "0.3"
hex = "0.4"
io-uring = "0.6"
libc = "0.2"
lz4_flex = "0.11"
nix = { version = "0.29", features = ["fs", "user", "feature", "ioctl", "mount"] }
pathdiff = "0.2"
prometheus = { version = "0.13", default-features = false }
ratatui = "0.29"
serde = { version = "1", features = ["derive"] }
serde_json = "1"
sysinfo = { version = "0.30", default-features = false }
tar = "0.4"
tokio = { version = "1", features = ["full"] }
tracing = "0.1"
tracing-subscriber = { version = "0.3", features = ["env-filter"] }
uuid = { version = "1", features = ["v4"] }
walkdir = "2"
xattr = "1"
xz2 = "0.1"
zstd = "0.13"
