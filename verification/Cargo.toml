[package]
name = "itch_io_downloader"
version = "0.1.0"
edition = "2021"
publish = false

[dependencies]
clap = { version = "*", features = ["derive"] }
console = "*"
dialoguer = "*"
futures = "*"
indicatif = "*"
reqwest = { version = "*", features = ["json", "stream"] }
serde = { version = "*", features = ["derive"] }
serde_json = "*"
tokio = { version = "*", features = ["macros", "rt-multi-thread", "fs", "process", "io-util"] }
