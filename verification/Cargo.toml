[package]
name = "kicad_finder"
version = "0.1.0"
edition = "2021"
publish = false

[dependencies]
clap = { version = "4", features = ["derive"] }
color-eyre = "0.6"
ignore = "0.4"
thiserror = "2"
tokio = { version = "1", features = ["rt-multi-thread", "macros", "time"] }
