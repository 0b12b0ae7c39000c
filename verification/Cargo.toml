[package]
name = "logcheck_fluent_bit_filter"
version = "0.1.0"
edition = "2021"
publish = false

[dependencies]
regex = "1"
grex = "1.4"
serde = { version = "1", features = ["derive"] }
serde_json = "1"
anyhow = "1"
thiserror = "1"
once_cell = "1"
clap = { version = "4", features = ["derive"] }
clap_complete = "4"
colored = "2"
crossterm = "0.28"
ratatui = "0.29"
