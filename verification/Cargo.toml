[package]
name = "spytrap_engine"
version = "0.1.0"
edition = "2021"
publish = false

[dependencies]
sha2 = "0.10"
clap = { version = "4", features = ["derive"] }
env_logger = "0.11"
tokio = { version = "1", features = ["macros", "rt-multi-thread", "process", "fs"] }
forensic-adb = "*"
anyhow = "1"
log = "0.4"
