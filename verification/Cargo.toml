[package]
name = "rayfish"
version = "0.1.0"
edition = "2021"
publish = false

[dependencies]
anyhow = "1"
arc-swap = "1"
async-trait = "0.1"
bytes = "1"
dirs = "*"
futures = "0.3"
reqwest = { version = "0.13", default-features = false, features = ["json", "rustls-no-provider"] }
rtnetlink = "*"
rustls = { version = "0.23", default-features = false, features = ["ring", "std"] }
serde = { version = "1", features = ["derive"] }
smol_str = "0.3"
tokio = { version = "1", features = ["rt", "time", "macros", "net", "sync"] }
tracing = "0.1"
tun-rs = { version = "2", features = ["async"] }
