[package]
name = "pizdos_scanner"
version = "0.1.0"
edition = "2021"
publish = false

[dependencies]
ipnetwork = "*"
anyhow = "1"
chrono = "*"
clap = { version = "4", features = ["derive"] }
colored = "*"
crossterm = "*"
ctrlc = "*"
dns-lookup = "*"
futures-util = "*"
indicatif = "*"
maxminddb = "*"
ping = "*"
ratatui = "*"
rayon = "*"
regex = "*"
reqwest = { version = "0.12", default-features = false, features = ["rustls-tls", "json", "blocking", "stream"] }
serde = { version = "1", features = ["derive"] }
serde_json = "1"
serde_with = "*"
socket2 = { version = "*", features = ["all"] }
tokio = { version = "1", features = ["full"] }
toml = "*"

[dev-dependencies]
prost = "*"
