[package]
name = "dire_engine"
version = "0.1.0"
edition = "2021"
publish = false

[dependencies]
differential-dataflow = "0.12"
timely = "0.12"
flume = "0.10"
clap = "3"
toml = "0.5"
serde = { version = "1", features = ["derive"] }
tui = "0.19"
crossterm = "0.25"
unicode-width = "0.1"
