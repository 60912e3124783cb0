[package]
name = "qazna_ledger"
version = "0.1.0"
edition = "2021"
publish = false

[dependencies]
chrono = "0.4"
ulid = "1"
clap = { version = "4", features = ["derive"] }
hyper = { version = "0.14", features = ["server", "http1", "tcp"] }
once_cell = "1"
prometheus = "0.13"
tokio = { version = "1", features = ["macros", "rt-multi-thread", "signal"] }
