[package]
name = "unifi_protect_bulk_download"
version = "0.1.0"
edition = "2021"
publish = false

[dependencies]
chrono = "0.4"
sanitize-filename = "0.6"
clap = { version = "4", features = ["derive"] }
tokio = { version = "1", features = ["macros", "rt-multi-thread"] }
