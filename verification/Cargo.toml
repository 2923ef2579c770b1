[package]
name = "scrapland_codec"
version = "0.1.0"
edition = "2021"
publish = false

[dependencies]
structopt = { version = "0.3", features = ["paw"] }
