[package]
name = "justext"
version = "0.1.0"
edition = "2021"
publish = false

[dependencies]
anyhow = "=1.0.104"
clap = { version = "=4.6.7", features = ["derive"] }
flate2 = "=1.1.10"
indicatif = "=0.18.6"
libflate = "=2.3.2"
libxml = "=0.2.16"
rayon = "=1.12.0"
reqwest = { version = "=0.13.5", features = ["blocking"] }
warc = "=0.4.0"
