[package]
name = "diskdoc"
version = "0.1.0"
edition = "2021"
publish = false

[dependencies]
clap = { version = "4", features = ["derive"] }
crossterm = "0.28"
jwalk = "0.8"
ratatui = "0.29"
