[package]
name = "s3cli"
version = "0.1.0"
edition = "2021"
publish = false

[dependencies]
anyhow = "1"
aws-sdk-s3 = "1"
chrono = "0.4"
clap = { version = "4", features = ["cargo"] }
colored = "2"
console = "0.15"
human_bytes = "0.4"
indicatif = "0.17"
regex = "1"
rpassword = "7"
sha256 = "1"
tokio = { version = "1", features = ["macros", "rt-multi-thread", "time"] }
