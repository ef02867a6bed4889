[package]
name = "segmenter"
version = "0.1.0"
edition = "2021"
publish = false

[dependencies]
regex = "1"
jp_inflections = "*"
wana_kana = "*"
quick-xml = { version = "*", features = ["serialize"] }
serde = { version = "1", features = ["derive"] }
bincode = "1"
