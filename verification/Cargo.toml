[package]
name = "stock_tags"
version = "0.1.0"
edition = "2021"
publish = false

[dependencies]
dashmap = "6"
once_cell = "1"
rayon = "1"
regex = "1"
serde = { version = "1", features = ["derive"] }
