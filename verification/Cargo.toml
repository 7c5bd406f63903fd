[package]
name = "emma"
version = "0.1.0"
edition = "2021"
publish = false

[dependencies]
ropey = "=1.6.1"
rand = "=0.9.5"
aho-corasick = "=1.1.5"
unicode-segmentation = "=1.13.3"
serde = { version = "=1.0.229", features = ["derive"] }
serde_json = "=1.0.154"
serde_yaml = "=0.9.34"
anyhow = "=1.0.104"
tracing = "=0.1.44"
tracing-subscriber = "=0.3.23"
dirs = "=6.0.0"
fs-err = "=3.3.2"
glob = "=0.3.4"
shlex = "=1.3.0"
syntect = { version = "=5.3.0", default-features = false, features = ["default-fancy"] }
rusqlite = { version = "=0.37.0", features = ["bundled"] }
gtk4 = "=0.10.3"
pangocairo = "0.21"
