[package]
name = "ym_core"
version = "0.1.0"
edition = "2021"
publish = false

[dependencies]
ym2149 = "*"
ym2149-common = "*"
ym2149-ym-replayer = "*"
serde = { version = "1", features = ["derive"] }
serde_json = "1"
clap = { version = "4", features = ["derive"] }
console = "*"
indicatif = "*"
cpal = "*"
