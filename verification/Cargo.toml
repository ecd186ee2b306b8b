[package]
name = "skim_integration"
version = "0.1.0"
edition = "2021"
publish = false

[dependencies]
crossterm = "0.28"
eyre = "0.6"
rustyline = "15"
skim = "0.16"
tempfile = "3"
tokio = { version = "1", features = ["sync"] }
