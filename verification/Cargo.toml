[package]
name = "photo_index"
version = "0.1.0"
edition = "2021"
publish = false

[dependencies]
anyhow = "1"
candle-core = "0.8"
candle-nn = "0.8"
candle-transformers = "0.8"
chrono = { version = "0.4", default-features = false, features = ["std"] }
clap = { version = "4", features = ["derive"] }
image = { version = "0.25", default-features = false, features = ["jpeg", "png"] }
json = "0.12"
nom-exif = "2"
reqwest = { version = "0.12", default-features = false, features = ["blocking", "json"] }
scan_dir = "0.3"
serde = { version = "1", features = ["derive"] }
serde_json = "1"
tokenizers = { version = "0.21", default-features = false, features = ["onig"] }
tokio = { version = "1", features = ["macros", "rt-multi-thread"] }
warp = "0.3"

[dev-dependencies]
regex = "1"
