[package]
name = "theory_grabber"
version = "0.1.0"
edition = "2021"
publish = false

[dependencies]
anyhow = "*"
chrono = "*"
chrono-tz = "*"
clap = { version = "*", features = ["derive"] }
crossterm = "*"
directories = "*"
quick-xml = "*"
ratatui = "*"
reqwest = { version = "*", default-features = false, features = ["blocking", "rustls-tls"] }
select = "*"
serde = { version = "*", features = ["derive"] }
tempfile = "*"
toml = "*"
url = "*"
