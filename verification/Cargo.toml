[package]
name = "stepwise"
version = "0.1.0"
edition = "2021"
publish = false

[dependencies]
boolean_expression = "0.4"
clap = { version = "4", features = ["derive"] }
crossterm = "0.28"
directories = "5"
num-bigint = "0.4"
num-integer = "0.1"
num-rational = "0.4"
num-traits = "0.2"
rand = "0.8"
rand_chacha = "0.3"
ratatui = "0.29"
rustpython-parser = "0.3"
serde = { version = "1", features = ["derive"] }
serde_json = "1"
tempfile = "3"
thiserror = "1"
toml = "0.8"
unicode-width = "0.2"
