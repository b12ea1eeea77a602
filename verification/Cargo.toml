[package]
name = "rootscan"
version = "0.1.0"
edition = "2021"
publish = false

[dependencies]
base64 = "0.21"
rand = "0.8"
num_cpus = "1"
reqwest = "0.11"
tokio = { version = "1", features = ["rt-multi-thread", "macros", "time"] }
tokio-postgres = "0.7"
deadpool-postgres = "0.10"
dotenv = "0.15"
indicatif = "0.17"
