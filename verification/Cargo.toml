[package]
name = "genetics"
version = "0.1.0"
edition = "2021"
publish = false

[dependencies]
pulldown-cmark = "0.8"
syntect = { version = "5", default-features = false, features = ["parsing", "default-syntaxes", "default-themes", "html", "regex-fancy"] }
gh-emoji = "1"
toml = "0.8"
anyhow = "1"
clap = { version = "4", features = ["derive"] }
ctrlc = "3"
walkdir = "2"
open = "5"
hyper = { version = "0.14", features = ["full"] }
tokio = { version = "1", features = ["rt", "net", "time"] }
ws = "0.9"
notify-debouncer-full = "*"
