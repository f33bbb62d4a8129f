[package]
name = "rsp"
version = "0.1.0"
edition = "2021"
publish = false

[dependencies]
anyhow = "1"
clap = { version = "4", features = ["derive"] }
dialoguer = { version = "0.11", default-features = false }
eframe = { version = "0.31", default-features = false, features = ["default_fonts", "glow", "x11"] }
prettytable-rs = { version = "0.10", default-features = false }
serde = { version = "1", features = ["derive"] }
serde_json = "1"
shellexpand = "3"
tokio = { version = "1", features = ["macros", "rt-multi-thread"] }
