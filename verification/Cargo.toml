[package]
name = "affected"
version = "0.1.0"
edition = "2021"
publish = false

[dependencies]
anyhow = "1"
clap = { version = "4", features = ["derive"] }
dotenvy = "*"
git2 = { version = "*", default-features = false }
globset = "0.4"
ignore = "0.4"
log = "0.4"
petgraph = "*"
serde = { version = "1", features = ["derive"] }
serde_json = "1"
serde_with = "3"
serde_yaml = "0.9"
swc_common = "*"
swc_ecma_ast = "*"
swc_ecma_parser = "*"
tabled = "*"
tokio = { version = "1", features = ["rt-multi-thread", "macros", "process", "io-util", "io-std"] }
