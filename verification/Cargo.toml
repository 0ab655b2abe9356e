[package]
name = "mpd_harvest"
version = "0.1.0"
edition = "2021"
publish = false

[dependencies]
roxmltree = "*"
sprintf = "*"
iso8601-duration = "*"
clap = { version = "4", features = ["derive"] }
reqwest = { version = "*", features = ["blocking"] }
