[package]
name = "sshsync"
version = "0.1.0"
edition = "2021"
publish = false

[dependencies]
anyhow = "=1.0.104"
bytes = "=1.12.1"
futures = "=0.3.34"
git2 = { version = "=0.21.0", default-features = false }
openssh = "=0.11.6"
openssh-sftp-client = { version = "=0.15.10", features = ["openssh"] }
shellexpand = "=3.1.2"
ssh2-config = "=0.8.1"
tokio = { version = "=1.53.2", features = ["full"] }
walkdir = "=2.5.0"
