[package]
name = "cephalon"
version = "0.1.0"
edition = "2021"
publish = false

[dependencies]
clap = { version = "4", features = ["derive"] }
hora = "0.1.1"
minidom = "*"
pdf-extract = "*"
rayon = "1"
rusqlite = { version = "*", features = ["bundled"] }
rust-bert = "*"
serde = { version = "1", features = ["derive"] }
zip = { version = "*", default-features = false, features = ["deflate"] }
