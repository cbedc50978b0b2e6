[package]
name = "cbn-tui"
version = "0.1.0"
edition = "2021"
publish = false

[dependencies]
unicode-width = "0.2"
serde_json = { version = "1", features = ["preserve_order"] }
serde = { version = "1", features = ["derive"] }
ratatui = "0.29"
crossterm = "0.28"
tui-scrollview = "0.5"
clap = { version = "4", features = ["derive"] }
anyhow = "1"
directories = "6"
reqwest = { version = "0.12", default-features = false, features = ["blocking", "rustls-tls"] }
