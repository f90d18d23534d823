[package]
name = "mediahubsync"
version = "0.1.0"
edition = "2021"
publish = false

[dependencies]
env_logger = { version = "0.11", default-features = false }
fs_extra = "1.3"
log = "0.4"
notify = { version = "6", default-features = false }
reqwest = { version = "0.12", default-features = false, features = ["json", "rustls-tls"] }
serde = { version = "1", features = ["derive"] }
serde_json = "1"
tokio = { version = "1", features = ["macros", "rt-multi-thread"] }
widestring = "1"
win-msgbox = "*"
winapi = { version = "0.3", features = ["wincon"] }
