[package]
name = "protrack"
version = "0.1.0"
edition = "2021"
publish = false

[dependencies]
csv = "*"
chrono = "*"
strip-ansi-escapes = "*"
riven = "*"
tokio = { version = "*", features = ["rt", "macros", "rt-multi-thread"] }
clap = { version = "*", features = ["derive"] }
yansi = "*"
prettytable-rs = "*"
termsize = "*"
