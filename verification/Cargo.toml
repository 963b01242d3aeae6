[package]
name = "diff_viewer"
version = "0.1.0"
edition = "2021"
publish = false

[dependencies]
anyhow = "1"
arc-swap = "1"
gix = { version = "*", default-features = false, features = ["attributes", "parallel", "revision", "sha1", "status"] }
imara-diff = "0.2"
log = "0.4"
tokio = { version = "1", features = ["rt", "sync"] }
unicode-width = "=0.1.12"
