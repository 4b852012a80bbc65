[package]
name = "todo-curator"
version = "0.1.0"
edition = "2021"
publish = false

[dependencies]
regex = "=1.13.1"
regex-syntax = "=0.8.11"
urlencoding = "=2.1.3"
serde_json = "=1.0.154"
anyhow = "=1.0.104"
clap = { version = "=4.6.7", features = ["derive", "env"] }
colored = "=3.1.1"
gitlab = "=0.1905.0"
gix = { version = "=0.90.0", default-features = false, features = ["sha1"] }
http = "=1.5.0"
ignore = "=0.4.34"
octocrab = "=0.41.2"
serde = { version = "=1.0.229", features = ["derive"] }
tokio = { version = "=1.54.1", features = ["macros", "rt-multi-thread"] }
tracing = "=0.1.44"
tracing-subscriber = "=0.3.23"
