[package]
name = "movie_search_backend"
version = "0.1.0"
edition = "2021"
publish = false

[dependencies]
actix-web = { version = "4", default-features = false, features = ["macros"] }
actix-cors = "0.7"
serde = { version = "1", features = ["derive"] }
serde_json = "1"
csv = "1"
tantivy = { version = "0.25", default-features = false }
fastembed = { version = "5", default-features = false, features = ["ort-download-binaries", "hf-hub-native-tls"] }
rayon = "1"
bincode = "1"
