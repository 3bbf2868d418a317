[package]
name = "git_friends"
version = "0.1.0"
edition = "2021"
publish = false

[dependencies]
base64 = "=0.23.1"
uuid = { version = "=1.27.0", features = ["v4"] }
log = "=0.4.34"
env_logger = "=0.11.11"
clap = "=4.6.7"
serde = { version = "=1.0.229", features = ["derive"] }
serde_json = "=1.0.151"
thiserror = "=2.0.21"
tokio = { version = "=1.53.2", features = ["full"] }
futures-util = "=0.3.34"
warp = { version = "=0.4.3", features = ["server"] }
reqwest = { version = "=0.13.5", default-features = false, features = ["json"] }
rumqttc = "=0.25.1"
irc = { version = "=1.1.0", default-features = false }
git2 = { version = "=0.21.0", default-features = false }
