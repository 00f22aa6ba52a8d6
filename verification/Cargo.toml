[package]
name = "jmcomic_downloader"
version = "0.1.0"
edition = "2021"
publish = false

[dependencies]
strfmt = "0.2"
zip = { version = "2", default-features = false, features = ["deflate"] }
serde = { version = "1", features = ["derive"] }
serde_json = "1"
rayon = "1"
