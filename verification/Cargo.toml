[package]
name = "lcmt"
version = "0.1.0"
edition = "2021"
publish = false

[dependencies]
actix-files = "0.6"
actix-rt = "2"
actix-web = { version = "4", default-features = false, features = ["macros", "cookies"] }
argon2 = "0.5"
async-curl = "*"
curl = "0.4"
dotenvy = "0.15"
env_logger = { version = "0.11", default-features = false }
hmac = "0.12"
jwt = "0.16"
log = "0.4"
serde = { version = "1", features = ["derive"] }
serde_json = "1"
serde_qs = { version = "0.13", features = ["actix4"] }
sha2 = "0.10"
sqlx = { version = "0.8", default-features = false, features = ["postgres", "runtime-tokio", "derive", "migrate", "time", "uuid"] }
tera = { version = "1", default-features = false }
tera-hot-reload = "*"
time = { version = "0.3", features = ["formatting", "parsing", "macros"] }
uuid = "1"
