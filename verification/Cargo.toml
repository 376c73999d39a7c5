[package]
name = "cookie_session"
version = "0.1.0"
edition = "2021"
publish = false

[dependencies]
hmac = "=0.13.0"
sha2 = "=0.11.1"
rust-argon2 = { version = "=3.0.0", default-features = false }
rand = "=0.10.3"
actix = "=0.13.5"
actix-files = "=0.7.2"
actix-http = "=3.19.0"
actix-multipart = "=0.8.5"
actix-rt = "=2.15.0"
actix-web = { version = "=4.18.1", default-features = false, features = ["macros", "compress-gzip", "cookies"] }
deadpool-postgres = { version = "=0.14.2", features = ["serde"] }
tokio-postgres = "=0.7.18"
env_logger = "=0.11.11"
futures = "=0.3.34"
futures-util = "=0.3.34"
goauth = "=0.17.0"
smpl_jwt = "=0.9.0"
listenfd = "=1.0.2"
log = "=0.4.34"
sanitize-filename = "=0.6.0"
serde = { version = "=1.0.229", features = ["derive"] }
config = { version = "=0.15.27", default-features = false, features = ["toml"] }
