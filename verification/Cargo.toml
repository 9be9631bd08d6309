[package]
name = "datagen"
version = "0.1.0"
edition = "2021"
publish = false

[dependencies]
zip = "*"
csv = "*"
serde = { version = "*", features = ["derive"] }
serde_derive = "*"
serde_yaml = "*"
structopt = "*"
rayon = "*"
fake = "*"
rand = "*"
chrono = "*"
num-format = "*"
polars = { version = "*", default-features = false }
