[package]
name = "kotofetch"
version = "0.2.20"
edition = "2021"
publish = false

[dependencies]
clap = { version = "4", features = ["derive"] }
clap_complete = "4"
console = "*"
ctrlc = "3"
dirs = "*"
rand = "0.9"
serde = { version = "1", features = ["derive"] }
serde_json = "1"
term_size = "0.3"
textwrap = "0.16"
toml = "*"
unicode-width = "*"
ureq = { version = "3", default-features = false, features = ["json"] }
