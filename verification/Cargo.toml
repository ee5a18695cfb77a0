[package]
name = "corpus_prep"
version = "0.1.0"
edition = "2021"
publish = false

[dependencies]
regex = "1"
fxhash = "0.2"
rust-stemmers = "1.2"
rand = "0.9"
csv = "1"
clap = { version = "4", features = ["derive"] }
indicatif = "0.17"
rayon = "1"
