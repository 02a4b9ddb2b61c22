[package]
name = "rage"
version = "0.1.0"
edition = "2021"
publish = false

[dependencies]
anyhow = "1"
clap = { version = "4", features = ["derive", "env"] }
env_logger = "*"
glob = "0.3"
json = "0.12"
log = "0.4"
memmap2 = "0.9"
rage-formats = "*"
rage-render = "*"
rayon = "1"
roxmltree = "*"
rpf-archive = "*"
sha2 = "0.10"
ureq = "3"

[dev-dependencies]
tempfile = "3"
