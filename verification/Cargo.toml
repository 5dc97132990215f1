[package]
name = "thunder"
version = "0.1.0"
edition = "2021"
publish = false

[dependencies]
anyhow = "1"
clap = { version = "4", features = ["derive", "env"] }
clap_complete = "4"
dirs = "*"
ignore = "0.4"
libc = "0.2"
notify = "*"
rayon = "1"
serde = { version = "1", features = ["derive"] }
serde_json = "1"
shell-words = "1"
skim = "*"
toml = "*"
