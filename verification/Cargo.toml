[package]
name = "resourcefs_sources"
version = "0.1.0"
edition = "2021"
publish = false

[dependencies]
aws-lc-rs = "=1.19.0"
base64 = "=0.22.1"
getrandom = "=0.3.4"
gix-hash = { version = "=0.28.1", features = ["sha1"] }
gix-object = { version = "=0.66.1", features = ["sha1"] }
html5ever = "=0.40.1"
httpdate = "=1.0.3"
serde = { version = "=1.0.229", features = ["derive"] }
serde_json = "=1.0.154"
serde_path_to_error = "=0.1.20"
reqwest = { version = "0.12", default-features = false }
sha2 = "=0.11.1"
url = "=2.5.8"
