[package]
name = "maelstrom_node"
version = "0.1.0"
edition = "2021"
publish = false

[dependencies]
hashlink = "*"
anyhow = "*"
futures = "*"
log = "*"
serde = { version = "*", features = ["derive"] }
serde_json = "*"
serde_repr = "*"
stderrlog = "*"
tokio = { version = "*", features = ["macros", "rt", "time", "sync"] }
