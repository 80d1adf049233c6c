[package]
name = "dnsmasq"
version = "0.1.0"
edition = "2021"
publish = false

[dependencies]
sha1 = { version = "0.10", features = ["oid"] }
sha2 = { version = "0.10", features = ["oid"] }
p256 = "0.13"
p384 = "0.13"
ed25519-dalek = "2"
rsa = "0.9"
caps = "0.5"
libc = "0.2"
nix = { version = "0.29", features = ["fs", "process", "user"] }
socket2 = { version = "0.5", features = ["all"] }
thiserror = "1"
tokio = { version = "1", features = ["macros", "net", "rt", "rt-multi-thread", "signal", "sync", "time"] }
tracing = "0.1"

[dev-dependencies]
rand = "0.8"
