[package]
name = "vote_recommender"
version = "0.1.0"
edition = "2021"
publish = false

[dependencies]
clap = { version = "4", features = ["cargo"] }
form_urlencoded = "1"
isahc = { version = "1", features = ["cookies"] }
json = "0.12"
nalgebra = { version = "0.32", features = ["serde-serialize"] }
rayon = "1"
scraper = "0.17"
serde = { version = "1", features = ["derive"] }
serde_cbor = "0.11"
