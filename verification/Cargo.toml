[package]
name = "acta"
version = "0.1.0"
edition = "2021"
publish = false

[dependencies]
ansi_colours = "*"
anstyle-lossy = "*"
chrono = "*"
nerd-font-symbols = "*"
owo-colors = "*"
supports-color = "*"
tokio = { version = "*", features = ["rt", "sync", "io-std", "io-util"] }
tracing = "*"
tracing-log = "*"
tracing-subscriber = { version = "*", features = ["env-filter", "json"] }
