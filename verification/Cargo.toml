[package]
name = "oszdl"
version = "1.0.0"
edition = "2021"
publish = false

[dependencies]
confy = "=0.5.1"
futures-util = "=0.3.34"
indicatif = "0.17"
reqwest = { version = "=0.11.27", default-features = false, features = ["json", "stream"] }
serde = { version = "=1.0.229", features = ["derive"] }
structopt = "=0.3.26"
tokio = { version = "=1.53.2", features = ["macros", "rt-multi-thread"] }
