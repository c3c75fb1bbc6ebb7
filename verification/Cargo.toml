[package]
name = "vimwiki_markdown"
version = "0.1.0"
edition = "2021"
publish = false

[dependencies]
anyhow = "*"
chrono = "*"
convert_case = "*"
directories = "*"
env_logger = "*"
kuchiki = "*"
log = "*"
pulldown-cmark = "*"
serde = { version = "*", features = ["derive"] }
toml = "*"

[dev-dependencies]
path-clean = "*"
pathdiff = "*"
regex = "*"
