[package]
name = "archivindex"
version = "0.1.0"
edition = "2021"
publish = false

[dependencies]
chrono = "*"
csv = "*"
data-encoding = "*"
flate2 = "*"
http = "*"
serde = { version = "*", features = ["derive"] }
serde_json = "*"
sha1 = "*"
thiserror = "*"
url = "*"
zstd = "*"
