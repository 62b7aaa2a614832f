[package]
name = "library_generator"
version = "0.1.0"
edition = "2021"
publish = false

[dependencies]
anyhow = "1"
chrono = "0.4"
clap = { version = "4", features = ["derive"] }
serde = { version = "1", features = ["derive"] }
serde_json = "1"
slug = "0.1"
tera = "1"
tokio = { version = "1", features = ["macros", "rt-multi-thread"] }
ureq = { version = "2", features = ["json"] }
