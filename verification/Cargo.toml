[package]
name = "wow_vanilla_server"
version = "0.1.0"
edition = "2021"
publish = false

[dependencies]
ahash = "=0.8.12"
arc-swap = "=1.9.3"
chrono = "=0.4.45"
clap = { version = "=4.6.7", features = ["derive"] }
dotenvy = "=0.15.7"
gethostname = "=1.1.0"
kanal = "=0.1.1"
namigator = "=0.1.0"
postcard = { version = "=1.1.3", features = ["alloc"] }
rand = "=0.10.3"
rayon = "=1.12.0"
rusqlite = { version = "=0.41.1", features = ["bundled"] }
serde = { version = "=1.0.229", features = ["derive"] }
slab = "=0.4.12"
tokio = { version = "=1.54.1", features = ["full"] }
toml = "=1.1.8"
tracing = "=0.1.44"
tracing-subscriber = { version = "=0.3.23", features = ["env-filter"] }
tracing-tracy = "*"
walkdir = "=2.5.0"
wow_items = { version = "=0.2.0", features = ["vanilla"] }
wow_login_messages = { version = "=0.5.0", features = ["tokio"] }
wow_srp = "=0.7.0"
wow_world_base = { version = "=0.3.0", features = ["extended", "serde", "shared", "vanilla"] }
wow_world_messages = { version = "=0.3.0", features = ["tokio", "vanilla"] }
