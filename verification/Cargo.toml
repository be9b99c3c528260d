[package]
name = "file_organizer"
version = "0.1.0"
edition = "2021"
publish = false

[dependencies]
xxhash-rust = { version = "*", features = ["xxh3"] }
regex = "*"
chrono = "*"
walkdir = "*"
trash = "*"
rusqlite = { version = "*", features = ["bundled"] }
directories = "*"
fs2 = "*"
notify = "*"
serde = { version = "*", features = ["derive"] }
serde_json = "*"
