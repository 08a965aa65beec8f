[package]
name = "blokus"
version = "0.1.0"
edition = "2021"
publish = false

[dependencies]
actix = "=0.13.5"
actix-rt = "=2.15.0"
actix-web = { version = "=4.18.1", default-features = false, features = ["macros", "ws"] }
actix-web-actors = "=4.3.1"
clap = "=2.34.0"
rand = "=0.8.8"
regex = "=1.13.1"
rltk = "=0.8.7"
serde = { version = "=1.0.229", features = ["derive"] }
serde_json = "=1.0.154"
websocket = { version = "=0.26.5", default-features = false, features = ["sync"] }
