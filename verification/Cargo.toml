[package]
name = "rust_knowledge"
version = "0.1.0"
edition = "2021"
publish = false

[dependencies]
tantivy = "=0.26.2"
pulldown-cmark = "=0.13.6"
serde = { version = "=1.0.229", features = ["derive"] }
serde_json = "=1.0.154"
sha2 = "=0.11.1"
tracing = "=0.1.44"
tracing-subscriber = { version = "=0.3.23", features = ["env-filter", "json"] }
tracing-log = "=0.2.0"
cargo_metadata = "=0.23.1"
anyhow = "=1.0.104"
tokio = { version = "=1.54.1", features = ["full"] }
rmcp = { version = "=3.8.0", features = ["server", "transport-io"] }
figue = "=4.0.5"
facet = "=0.46.5"
toml = "*"
