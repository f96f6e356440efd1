[package]
name = "mutanchor"
version = "0.1.0"
edition = "2021"
publish = false

[dependencies]
regex-lite = "0.1"
toml = "0.8"
syn = { version = "2", features = ["full", "parsing"] }
proc-macro2 = { version = "1", features = ["span-locations"] }
serde = { version = "1", features = ["derive"] }
serde_json = "1"
anyhow = "1"
clap = { version = "4", features = ["derive"] }
ctrlc = "3"
libc = "0.2"
