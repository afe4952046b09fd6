[package]
name = "neo_re"
version = "0.1.0"
edition = "2021"
publish = false

[dependencies]
anyhow = "1"
thiserror = "2"
chrono = "0.4"
directories = "6"
serde = { version = "1", features = ["derive"] }
m68000 = "*"
rusb = "0.9"
