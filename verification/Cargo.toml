[package]
name = "mega_cli"
version = "0.1.0"
edition = "2021"
publish = false

[dependencies]
async-channel = "*"
async-read-progress = "*"
chrono = "*"
clap = { version = "*", features = ["derive", "env"] }
color-eyre = "*"
confy = "*"
console = "*"
dialoguer = "*"
filetime = "*"
futures = "*"
indicatif = "*"
mega = "=0.8.0"
once_cell = "*"
reqwest = "0.12"
serde = { version = "*", features = ["derive"] }
shell-words = "*"
sluice = "*"
text_trees = "*"
tokio = { version = "*", features = ["full"] }
tokio-util = { version = "*", features = ["compat"] }
url = { version = "*", features = ["serde"] }
