[package]
name = "dropignore"
version = "0.1.0"
edition = "2021"
publish = false

[dependencies]
globset = "0.4"
xattr = "1"
walkdir = "2"
notify = "4"
clap = "2"
config = "0.11"
directories = "4"
serde = { version = "1", features = ["derive"] }
log = "0.4"
fern = { version = "0.6", features = ["colored"] }

[dev-dependencies]
tempfile = "3"
