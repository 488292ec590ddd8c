[package]
name = "ai_file_organizer"
version = "0.1.0"
edition = "2021"
publish = false

[dependencies]
anyhow = "1"
blake3 = "1"
chrono = "0.4"
clap = { version = "4", features = ["derive"] }
env_logger = "0.10"
infer = "0.15"
kamadak-exif = "0.5"
log = "0.4"
notify = "6"
num_cpus = "1"
rayon = "1"
regex = "1"
reqwest = { version = "0.11", default-features = false, features = ["json"] }
serde = { version = "1", features = ["derive"] }
serde_json = "1"
tokio = { version = "1", features = ["macros", "rt-multi-thread"] }
walkdir = "2"
zip = { version = "0.6", default-features = false, features = ["deflate"] }
