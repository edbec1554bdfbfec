[package]
name = "celld"
version = "0.1.0"
edition = "2021"
publish = false

[dependencies]
anyhow = "1"
async-trait = "0.1"
bytes = "1"
futures-util = "0.3"
image = { version = "0.25", default-features = false, features = ["jpeg", "png", "webp", "gif", "avif"] }
libc = "0.2"
rand = "0.8"
rusqlite = { version = "0.32", features = ["bundled"] }
serde = { version = "1", features = ["derive"] }
serde_json = "1"
tokio = { version = "1", features = ["rt", "sync", "time", "macros"] }
tracing = "0.1"
url = "2"
