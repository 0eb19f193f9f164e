[package]
name = "medha"
version = "0.1.0"
edition = "2021"
publish = false

[dependencies]
anyhow = "=1.0.104"
base64 = "=0.22.1"
clap = { version = "=4.6.7", features = ["derive"] }
dirs = "=6.0.0"
fd-lock = "=4.0.4"
keyring = "=3.6.3"
libc = "=0.2.191"
oauth2 = { version = "=5.0.0", default-features = false }
reqwest = { version = "=0.13.5", default-features = false, features = ["rustls"] }
rmcp = { version = "=3.8.0", default-features = false, features = ["auth", "client", "reqwest", "transport-child-process", "transport-streamable-http-client-reqwest"] }
serde = { version = "=1.0.229", features = ["derive"] }
serde_json = "=1.0.154"
sha2 = "=0.10.9"
similar = "=2.7.0"
tokio = { version = "=1.54.1", features = ["full"] }
toml = "=0.8.23"
ulid = "=1.2.1"
url = "=2.5.8"

[dev-dependencies]
tempfile = "=3.27.0"
