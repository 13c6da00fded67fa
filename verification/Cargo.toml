[package]
name = "semantic_index"
version = "0.1.0"
edition = "2021"
publish = false

[dependencies]
pdf-extract = "*"
reqwest = { version = "0.12", default-features = false, features = ["json"] }
rquickjs = "*"
rusqlite = { version = "*", features = ["bundled"] }
serde = { version = "1", features = ["derive"] }
serde_json = "1"
