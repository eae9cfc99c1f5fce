[package]
name = "grimoire_lsp"
version = "0.1.0"
edition = "2021"
publish = false

[dependencies]
sled = "0.34"
anyhow = "1"
clap = { version = "3", features = ["derive"] }
log = "0.4"
log4rs = "1"
lsp-server = "0.7"
lsp-types = "0.93"
serde = { version = "1", features = ["derive"] }
serde_json = "1"
walkdir = "2"

[dev-dependencies]
tempfile = "3"
