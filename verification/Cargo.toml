[package]
name = "minacalc_rs"
version = "0.1.0"
edition = "2021"
publish = false

[dependencies]
clap = { version = "4", features = ["derive"] }
once_cell = "1"
parking_lot = "0.12"
rhythm-open-exchange = "*"
rosu-map = "*"
serde = { version = "1", features = ["derive"] }
serde_json = "1"
