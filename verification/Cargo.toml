[package]
name = "ming_rpg"
version = "0.1.0"
edition = "2021"
publish = false

[dependencies]
lru = "0.16"
serde = { version = "1", features = ["derive"] }
serde_json = "1"
toml = "0.8"
anyhow = "1"
thiserror = "2"
mlua = { version = "0.10", features = ["lua54", "vendored", "serialize"] }
uuid = { version = "1", features = ["v4"] }
rkyv = "0.8"
tracing = "0.1"
tracing-subscriber = { version = "0.3", features = ["env-filter"] }
chrono = "0.4"
notify = "8"
bevy = { version = "0.14", default-features = false, features = ["bevy_asset"] }

[dev-dependencies]
tempfile = "3"
