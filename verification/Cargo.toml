[package]
name = "terminal-history"
version = "0.1.0"
edition = "2021"
publish = false

[dependencies]
clap = { version = "=4.6.7", features = ["derive"] }
crossterm = "=0.28.1"
libc = "=0.2.191"
ratatui = "=0.29.0"
tokio = { version = "=1.54.1", features = ["macros", "rt-multi-thread"] }
turso = { version = "=0.8.3", default-features = false, features = ["sync"] }
