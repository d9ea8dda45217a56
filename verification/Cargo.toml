[package]
name = "hpm"
version = "0.9.0"
edition = "2021"
publish = false

[dependencies]
hk-parser = "=0.3.2"
indexmap = "=2.14.2"
sha2 = "=0.10.9"
hex = "=0.4.3"
serde = { version = "1", features = ["derive"] }
serde_json = "1"
toml = "0.8"
rusqlite = { version = "=0.41.1", features = ["bundled"] }
reqwest = { version = "0.12", default-features = false, features = ["rustls-tls", "json", "blocking"] }
tokio = { version = "1", features = ["rt", "rt-multi-thread", "macros", "time"] }
futures = "0.3"
git2 = { version = "=0.19.0", features = ["vendored-openssl"] }
gpgme = "=0.11.0"
landlock = "=0.4.7"
libseccomp = "=0.3.0"
nix = { version = "=0.29.0", features = ["fs", "hostname", "mount", "process", "resource", "sched", "signal", "user"] }
libc = "0.2"
fs2 = "0.4"
walkdir = "2"
tempfile = "3"
dirs = "5"
colored = "2"
indicatif = "0.17"
shellexpand = "3"
