[package]
name = "srp_analysis"
version = "0.1.0"
edition = "2021"
publish = false

[dependencies]
handlebars = "4"
open = "*"
serde = { version = "1", features = ["derive"] }
serde_json = "1"
structopt = "0.3"
