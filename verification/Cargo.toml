[package]
name = "metrum"
version = "0.1.0"
edition = "2021"
publish = false

[dependencies]
chrono = "0.4"
crossterm = "*"
termion = "1.5"
tui = { version = "0.19", features = ["termion"] }
