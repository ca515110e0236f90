[package]
name = "webgraph_core"
version = "0.1.0"
edition = "2021"
publish = false

[dependencies]
itertools = "*"
rustc-hash = "*"
fnv = "*"
anyhow = "1"
bincode = "2"
clap = { version = "4", features = ["derive"] }
dashmap = "*"
rayon = "1"
serde = { version = "1", features = ["derive"] }
tokio = { version = "1", features = ["rt-multi-thread", "net"] }
toml = "*"
tracing = "0.1"
tracing-subscriber = "0.3"
