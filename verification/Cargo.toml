[package]
name = "braacket_h2h"
version = "0.1.0"
edition = "2021"
publish = false

[dependencies]
anyhow = "1"
futures = "0.3"
reqwest = "*"
scraper = "*"
