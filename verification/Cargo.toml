[package]
name = "ksp_cfg_formatter"
version = "0.1.0"
edition = "2021"
publish = false

[dependencies]
url = "2"
nom = "7"
nom-unicode = "*"
strsim = "0.10"
itertools = "*"
lsp-types = "0.94"
lsp-server = "0.7"
crossbeam-channel = "0.5"
serde = { version = "1", features = ["derive"] }
serde_json = "1"
anyhow = "1"
log = "0.4"
