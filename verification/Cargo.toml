[package]
name = "mud_engine"
version = "0.1.0"
edition = "2021"
publish = false

[dependencies]
close_enough = "*"
serde = { version = "*", features = ["derive"] }
serde_json = "*"
serdeconv = "*"
slog = "*"
sloggers = "*"
ws = "*"
