[package]
name = "pumpkin"
version = "0.1.0"
edition = "2021"
publish = false

[dependencies]
tokio = { version = "=1.54.1", features = ["rt", "rt-multi-thread", "time", "sync", "macros", "net"] }
tokio-util = "=0.7.20"
tracing = "=0.1.44"
tracing-subscriber = { version = "0.3", features = ["env-filter", "fmt", "time", "ansi", "std", "registry"] }
time = { version = "0.3", features = ["macros", "formatting"] }
rustyline = "*"
