[package]
name = "vore"
version = "0.1.0"
edition = "2021"
publish = false

[dependencies]
serde = { version = "*", features = ["derive"] }
serde_json = "*"
toml = "*"
mlua = { version = "*", features = ["lua54", "vendored"] }
polling = "*"
signal-hook = "*"
libc = "*"
log = "*"
pretty_env_logger = "*"
anyhow = "*"
qapi = { version = "*", features = ["qmp"] }
qapi-qmp = "*"
