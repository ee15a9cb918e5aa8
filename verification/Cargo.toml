[package]
name = "paged_client"
version = "0.1.0"
edition = "2021"
publish = false

[dependencies]
serde_json = "=1.0.151"
ureq = { version = "=2.12.1", default-features = false, features = ["json"] }
futures = "=0.3.34"
async-stream = "=0.3.6"
log = "=0.4.34"
