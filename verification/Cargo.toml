[package]
name = "pop_snapshot"
version = "0.1.0"
edition = "2021"
publish = false

[dependencies]
uuid = { version = "*", features = ["v4"] }
time = { version = "*", features = ["formatting", "parsing"] }
serde = { version = "*", features = ["derive"] }
serde_json = "*"
toml = "*"
clap = { version = "*", features = ["derive"] }
tokio = { version = "*", features = ["full"] }
zbus = "*"
sys-mount = "*"
tempfile = "*"
libbtrfsutil = "*"
