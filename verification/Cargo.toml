[package]
name = "nim_server"
version = "0.1.0"
edition = "2021"
publish = false

[dependencies]
actix-files = "0.6"
actix-identity = "0.4"
actix-web = { version = "4", default-features = false, features = ["macros", "cookies"] }
askama = "=0.8.0"
failure = "=0.1.8"
pbkdf2 = { version = "=0.3.0", features = ["include_simple"] }
r2d2 = "=0.8.10"
r2d2_sqlite = "=0.10.0"
rusqlite = "=0.18.0"
serde = { version = "1", features = ["derive"] }
toml = "=0.5.11"
