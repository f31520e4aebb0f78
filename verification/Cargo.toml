[package]
name = "ssh-agent-fs"
version = "0.1.0"
edition = "2021"
publish = false

[dependencies]
fuser = { version = "=0.14.0", default-features = false }
libc = "=0.2.191"
ssh-agent-client-rs = "=1.1.4"
ssh-key = "=0.6.7"
