[package]
name = "prog"
version = "0.1.0"
edition = "2021"
publish = false

[dependencies]
anyhow = "1"
chrono = { version = "0.4", features = ["serde"] }
clap = { version = "4", features = ["derive"] }
clap_complete = "4"
dirs = "*"
env_logger = "*"
ignore = "0.4"
inquire = "*"
log = "0.4"
random-string = "1"
rayon = "1"
serde = { version = "1", features = ["derive"] }
strsim = "*"
toml = "*"
