[package]
name = "orisa"
version = "0.1.0"
edition = "2021"
publish = false

[dependencies]
actix = "=0.13.5"
actix-rt = "=2.15.0"
actix-web = { version = "=4.18.1", default-features = false, features = ["macros", "ws"] }
actix-web-actors = "=4.3.1"
ctrlc = "=3.5.2"
env_logger = { version = "=0.11.11", default-features = false }
futures = "=0.3.34"
git2 = { version = "=0.21.0", default-features = false }
listenfd = "=1.0.2"
log = "=0.4.34"
multimap = { version = "=0.10.1", default-features = false }
rlua = "=0.19.8"
serde = { version = "=1.0.229", features = ["derive"] }
serde_json = "=1.0.154"
uuid = { version = "=1.29.0", features = ["v4"] }

[dev-dependencies]
regex = "1"
