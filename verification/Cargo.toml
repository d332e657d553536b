[package]
name = "near_facsimile"
version = "1.1.0"
edition = "2021"
publish = false

[dependencies]
clap = { version = "4", features = ["derive"] }
color-eyre = "0.6"
csv = "1"
ignore = "0.4"
indicatif = { version = "0.17", features = ["rayon"] }
log = "0.4"
owo-colors = { version = "3", features = ["supports-colors"] }
permutator = "0.4"
rayon = "1"
regex = "1"
serde = { version = "1", features = ["derive"] }
serde_json = "1"
simplelog = { version = "0.12", features = ["local-offset"] }
strsim = "0.10"
trigram = "0.4"
